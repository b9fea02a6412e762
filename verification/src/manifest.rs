use crate::model::{Model, Named};
use crate::time::{Microseconds, RationalFrameRate, RationalRate, TimeRange};
use vstd::prelude::*;

verus! {

/// Where a source asset came from.
#[derive(Clone, Copy, Debug, PartialEq, Eq, Structural)]
pub enum SourceAssetKind {
    LocalVideo,
    LocalAudio,
    ImportedLink,
    SoundArSpeech,
    SoundArMusic,
    SoundArProject,
    Generated,
}

impl DeepView for SourceAssetKind {
    type V = SourceAssetKind;

    open spec fn deep_view(&self) -> SourceAssetKind {
        *self
    }
}

impl Model for SourceAssetKind {
    fn duplicate(&self) -> (copy: Self) {
        *self
    }

    fn same(&self, other: &Self) -> (equal: bool) {
        *self == *other
    }
}

/// How an asset entered the project.
#[derive(Clone, Copy, Debug, PartialEq, Eq, Structural)]
pub enum ProvenanceKind {
    UserUpload,
    AuthorizedLink,
    ExistingSoundArArtifact,
    GeneratedLocally,
}

impl DeepView for ProvenanceKind {
    type V = ProvenanceKind;

    open spec fn deep_view(&self) -> ProvenanceKind {
        *self
    }
}

impl Model for ProvenanceKind {
    fn duplicate(&self) -> (copy: Self) {
        *self
    }

    fn same(&self, other: &Self) -> (equal: bool) {
        *self == *other
    }
}

/// One provenance note: a name and the JSON text recorded under it.
#[derive(Clone, Debug, PartialEq, Eq)]
pub struct MetadataEntry {
    pub key: String,
    pub value_json: String,
}

/// What a [`MetadataEntry`] holds, as mathematical values.
pub struct MetadataEntryModel {
    pub key: Seq<char>,
    pub value_json: Seq<char>,
}

impl DeepView for MetadataEntry {
    type V = MetadataEntryModel;

    open spec fn deep_view(&self) -> MetadataEntryModel {
        MetadataEntryModel {
            key: self.key.deep_view(),
            value_json: self.value_json.deep_view(),
        }
    }
}

impl Model for MetadataEntry {
    fn duplicate(&self) -> (copy: Self) {
        MetadataEntry {
            key: self.key.duplicate(),
            value_json: self.value_json.duplicate(),
        }
    }

    fn same(&self, other: &Self) -> (equal: bool) {
        self.key.same(&other.key)
            && self.value_json.same(&other.value_json)
    }
}

/// Where an asset came from and what produced it.
#[derive(Clone, Debug, PartialEq, Eq)]
pub struct Provenance {
    pub kind: ProvenanceKind,
    pub original_uri: Option<String>,
    pub imported_at: String,
    pub producer: String,
    pub producer_version: Option<String>,
    pub metadata: Vec<MetadataEntry>,
}

/// What a [`Provenance`] holds, as mathematical values.
pub struct ProvenanceModel {
    pub kind: ProvenanceKind,
    pub original_uri: Option<Seq<char>>,
    pub imported_at: Seq<char>,
    pub producer: Seq<char>,
    pub producer_version: Option<Seq<char>>,
    pub metadata: Seq<MetadataEntryModel>,
}

impl DeepView for Provenance {
    type V = ProvenanceModel;

    open spec fn deep_view(&self) -> ProvenanceModel {
        ProvenanceModel {
            kind: self.kind.deep_view(),
            original_uri: self.original_uri.deep_view(),
            imported_at: self.imported_at.deep_view(),
            producer: self.producer.deep_view(),
            producer_version: self.producer_version.deep_view(),
            metadata: self.metadata.deep_view(),
        }
    }
}

impl Model for Provenance {
    fn duplicate(&self) -> (copy: Self) {
        Provenance {
            kind: self.kind.duplicate(),
            original_uri: self.original_uri.duplicate(),
            imported_at: self.imported_at.duplicate(),
            producer: self.producer.duplicate(),
            producer_version: self.producer_version.duplicate(),
            metadata: self.metadata.duplicate(),
        }
    }

    fn same(&self, other: &Self) -> (equal: bool) {
        self.kind.same(&other.kind)
            && self.original_uri.same(&other.original_uri)
            && self.imported_at.same(&other.imported_at)
            && self.producer.same(&other.producer)
            && self.producer_version.same(&other.producer_version)
            && self.metadata.same(&other.metadata)
    }
}

/// The ground on which a source may be used.
#[derive(Clone, Copy, Debug, PartialEq, Eq, Structural)]
pub enum RightsBasis {
    Owned,
    Licensed,
    PublicDomain,
    CreativeCommons,
    Other,
}

impl DeepView for RightsBasis {
    type V = RightsBasis;

    open spec fn deep_view(&self) -> RightsBasis {
        *self
    }
}

impl Model for RightsBasis {
    fn duplicate(&self) -> (copy: Self) {
        *self
    }

    fn same(&self, other: &Self) -> (equal: bool) {
        *self == *other
    }
}

/// A confirmation that one exact source may be used.
#[derive(Clone, Debug, PartialEq, Eq)]
pub struct RightsConfirmation {
    pub id: String,
    pub source_uri: String,
    pub source_uri_sha256: String,
    pub basis: RightsBasis,
    pub confirmation_text: String,
    pub confirmed_by: String,
    pub confirmed_at: String,
    /// Always true: a confirmation is bound to exactly one normalized source URL.
    pub single_source_only: bool,
}

/// What a [`RightsConfirmation`] holds, as mathematical values.
pub struct RightsConfirmationModel {
    pub id: Seq<char>,
    pub source_uri: Seq<char>,
    pub source_uri_sha256: Seq<char>,
    pub basis: RightsBasis,
    pub confirmation_text: Seq<char>,
    pub confirmed_by: Seq<char>,
    pub confirmed_at: Seq<char>,
    pub single_source_only: bool,
}

impl DeepView for RightsConfirmation {
    type V = RightsConfirmationModel;

    open spec fn deep_view(&self) -> RightsConfirmationModel {
        RightsConfirmationModel {
            id: self.id.deep_view(),
            source_uri: self.source_uri.deep_view(),
            source_uri_sha256: self.source_uri_sha256.deep_view(),
            basis: self.basis.deep_view(),
            confirmation_text: self.confirmation_text.deep_view(),
            confirmed_by: self.confirmed_by.deep_view(),
            confirmed_at: self.confirmed_at.deep_view(),
            single_source_only: self.single_source_only.deep_view(),
        }
    }
}

impl Model for RightsConfirmation {
    fn duplicate(&self) -> (copy: Self) {
        RightsConfirmation {
            id: self.id.duplicate(),
            source_uri: self.source_uri.duplicate(),
            source_uri_sha256: self.source_uri_sha256.duplicate(),
            basis: self.basis.duplicate(),
            confirmation_text: self.confirmation_text.duplicate(),
            confirmed_by: self.confirmed_by.duplicate(),
            confirmed_at: self.confirmed_at.duplicate(),
            single_source_only: self.single_source_only.duplicate(),
        }
    }

    fn same(&self, other: &Self) -> (equal: bool) {
        self.id.same(&other.id)
            && self.source_uri.same(&other.source_uri)
            && self.source_uri_sha256.same(&other.source_uri_sha256)
            && self.basis.same(&other.basis)
            && self.confirmation_text.same(&other.confirmation_text)
            && self.confirmed_by.same(&other.confirmed_by)
            && self.confirmed_at.same(&other.confirmed_at)
            && self.single_source_only.same(&other.single_source_only)
    }
}

impl Named for RightsConfirmation {
    open spec fn name_of(model: RightsConfirmationModel) -> Seq<char> {
        model.id
    }

    fn name(&self) -> (name: &String) {
        &self.id
    }
}

/// What probing a media file found.
#[derive(Clone, Debug, PartialEq, Eq)]
pub struct MediaProbe {
    pub duration_us: Microseconds,
    pub width: Option<u32>,
    pub height: Option<u32>,
    pub frame_rate: Option<RationalFrameRate>,
    pub has_video: bool,
    pub has_audio: bool,
    pub format_name: String,
}

/// What a [`MediaProbe`] holds, as mathematical values.
pub struct MediaProbeModel {
    pub duration_us: Microseconds,
    pub width: Option<u32>,
    pub height: Option<u32>,
    pub frame_rate: Option<RationalFrameRate>,
    pub has_video: bool,
    pub has_audio: bool,
    pub format_name: Seq<char>,
}

impl DeepView for MediaProbe {
    type V = MediaProbeModel;

    open spec fn deep_view(&self) -> MediaProbeModel {
        MediaProbeModel {
            duration_us: self.duration_us.deep_view(),
            width: self.width.deep_view(),
            height: self.height.deep_view(),
            frame_rate: self.frame_rate.deep_view(),
            has_video: self.has_video.deep_view(),
            has_audio: self.has_audio.deep_view(),
            format_name: self.format_name.deep_view(),
        }
    }
}

impl Model for MediaProbe {
    fn duplicate(&self) -> (copy: Self) {
        MediaProbe {
            duration_us: self.duration_us.duplicate(),
            width: self.width.duplicate(),
            height: self.height.duplicate(),
            frame_rate: self.frame_rate.duplicate(),
            has_video: self.has_video.duplicate(),
            has_audio: self.has_audio.duplicate(),
            format_name: self.format_name.duplicate(),
        }
    }

    fn same(&self, other: &Self) -> (equal: bool) {
        self.duration_us.same(&other.duration_us)
            && self.width.same(&other.width)
            && self.height.same(&other.height)
            && self.frame_rate.same(&other.frame_rate)
            && self.has_video.same(&other.has_video)
            && self.has_audio.same(&other.has_audio)
            && self.format_name.same(&other.format_name)
    }
}

/// One piece of imported media.
#[derive(Clone, Debug, PartialEq, Eq)]
pub struct SourceAsset {
    pub id: String,
    pub kind: SourceAssetKind,
    /// A path within the application's managed artifact store.
    pub managed_path: String,
    pub sha256: String,
    pub probe: MediaProbe,
    pub provenance: Provenance,
    pub rights_confirmation_id: Option<String>,
}

/// What a [`SourceAsset`] holds, as mathematical values.
pub struct SourceAssetModel {
    pub id: Seq<char>,
    pub kind: SourceAssetKind,
    pub managed_path: Seq<char>,
    pub sha256: Seq<char>,
    pub probe: MediaProbeModel,
    pub provenance: ProvenanceModel,
    pub rights_confirmation_id: Option<Seq<char>>,
}

impl DeepView for SourceAsset {
    type V = SourceAssetModel;

    open spec fn deep_view(&self) -> SourceAssetModel {
        SourceAssetModel {
            id: self.id.deep_view(),
            kind: self.kind.deep_view(),
            managed_path: self.managed_path.deep_view(),
            sha256: self.sha256.deep_view(),
            probe: self.probe.deep_view(),
            provenance: self.provenance.deep_view(),
            rights_confirmation_id: self.rights_confirmation_id.deep_view(),
        }
    }
}

impl Model for SourceAsset {
    fn duplicate(&self) -> (copy: Self) {
        SourceAsset {
            id: self.id.duplicate(),
            kind: self.kind.duplicate(),
            managed_path: self.managed_path.duplicate(),
            sha256: self.sha256.duplicate(),
            probe: self.probe.duplicate(),
            provenance: self.provenance.duplicate(),
            rights_confirmation_id: self.rights_confirmation_id.duplicate(),
        }
    }

    fn same(&self, other: &Self) -> (equal: bool) {
        self.id.same(&other.id)
            && self.kind.same(&other.kind)
            && self.managed_path.same(&other.managed_path)
            && self.sha256.same(&other.sha256)
            && self.probe.same(&other.probe)
            && self.provenance.same(&other.provenance)
            && self.rights_confirmation_id.same(&other.rights_confirmation_id)
    }
}

impl Named for SourceAsset {
    open spec fn name_of(model: SourceAssetModel) -> Seq<char> {
        model.id
    }

    fn name(&self) -> (name: &String) {
        &self.id
    }
}

/// What timed a transcript.
#[derive(Clone, Copy, Debug, PartialEq, Eq, Structural)]
pub enum TranscriptTimingSource {
    FasterWhisper,
    WhisperCpp,
    SoundArWhisper,
    ValidatedExternal,
    Manual,
}

impl DeepView for TranscriptTimingSource {
    type V = TranscriptTimingSource;

    open spec fn deep_view(&self) -> TranscriptTimingSource {
        *self
    }
}

impl Model for TranscriptTimingSource {
    fn duplicate(&self) -> (copy: Self) {
        *self
    }

    fn same(&self, other: &Self) -> (equal: bool) {
        *self == *other
    }
}

/// One timed word on the source clock.
#[derive(Clone, Debug, PartialEq, Eq)]
pub struct TranscriptWord {
    pub id: String,
    pub range: TimeRange,
    pub text: String,
    pub speaker_id: Option<String>,
    pub confidence_milli: Option<u16>,
}

/// What a [`TranscriptWord`] holds, as mathematical values.
pub struct TranscriptWordModel {
    pub id: Seq<char>,
    pub range: TimeRange,
    pub text: Seq<char>,
    pub speaker_id: Option<Seq<char>>,
    pub confidence_milli: Option<u16>,
}

impl DeepView for TranscriptWord {
    type V = TranscriptWordModel;

    open spec fn deep_view(&self) -> TranscriptWordModel {
        TranscriptWordModel {
            id: self.id.deep_view(),
            range: self.range.deep_view(),
            text: self.text.deep_view(),
            speaker_id: self.speaker_id.deep_view(),
            confidence_milli: self.confidence_milli.deep_view(),
        }
    }
}

impl Model for TranscriptWord {
    fn duplicate(&self) -> (copy: Self) {
        TranscriptWord {
            id: self.id.duplicate(),
            range: self.range.duplicate(),
            text: self.text.duplicate(),
            speaker_id: self.speaker_id.duplicate(),
            confidence_milli: self.confidence_milli.duplicate(),
        }
    }

    fn same(&self, other: &Self) -> (equal: bool) {
        self.id.same(&other.id)
            && self.range.same(&other.range)
            && self.text.same(&other.text)
            && self.speaker_id.same(&other.speaker_id)
            && self.confidence_milli.same(&other.confidence_milli)
    }
}

impl Named for TranscriptWord {
    open spec fn name_of(model: TranscriptWordModel) -> Seq<char> {
        model.id
    }

    fn name(&self) -> (name: &String) {
        &self.id
    }
}

/// One timed stretch of speech on the source clock.
#[derive(Clone, Debug, PartialEq, Eq)]
pub struct TranscriptSegment {
    pub id: String,
    pub range: TimeRange,
    pub text: String,
    pub speaker_id: Option<String>,
    pub word_ids: Vec<String>,
}

/// What a [`TranscriptSegment`] holds, as mathematical values.
pub struct TranscriptSegmentModel {
    pub id: Seq<char>,
    pub range: TimeRange,
    pub text: Seq<char>,
    pub speaker_id: Option<Seq<char>>,
    pub word_ids: Seq<Seq<char>>,
}

impl DeepView for TranscriptSegment {
    type V = TranscriptSegmentModel;

    open spec fn deep_view(&self) -> TranscriptSegmentModel {
        TranscriptSegmentModel {
            id: self.id.deep_view(),
            range: self.range.deep_view(),
            text: self.text.deep_view(),
            speaker_id: self.speaker_id.deep_view(),
            word_ids: self.word_ids.deep_view(),
        }
    }
}

impl Model for TranscriptSegment {
    fn duplicate(&self) -> (copy: Self) {
        TranscriptSegment {
            id: self.id.duplicate(),
            range: self.range.duplicate(),
            text: self.text.duplicate(),
            speaker_id: self.speaker_id.duplicate(),
            word_ids: self.word_ids.duplicate(),
        }
    }

    fn same(&self, other: &Self) -> (equal: bool) {
        self.id.same(&other.id)
            && self.range.same(&other.range)
            && self.text.same(&other.text)
            && self.speaker_id.same(&other.speaker_id)
            && self.word_ids.same(&other.word_ids)
    }
}

impl Named for TranscriptSegment {
    open spec fn name_of(model: TranscriptSegmentModel) -> Seq<char> {
        model.id
    }

    fn name(&self) -> (name: &String) {
        &self.id
    }
}

/// A transcript of one source asset.
#[derive(Clone, Debug, PartialEq, Eq)]
pub struct TranscriptVersion {
    pub id: String,
    pub source_asset_id: String,
    pub source_clock_duration_us: Microseconds,
    pub language: Option<String>,
    pub timing_source: TranscriptTimingSource,
    pub preserved_source_gaps: bool,
    pub segments: Vec<TranscriptSegment>,
    pub words: Vec<TranscriptWord>,
    pub content_sha256: String,
    pub created_at: String,
}

/// What a [`TranscriptVersion`] holds, as mathematical values.
pub struct TranscriptVersionModel {
    pub id: Seq<char>,
    pub source_asset_id: Seq<char>,
    pub source_clock_duration_us: Microseconds,
    pub language: Option<Seq<char>>,
    pub timing_source: TranscriptTimingSource,
    pub preserved_source_gaps: bool,
    pub segments: Seq<TranscriptSegmentModel>,
    pub words: Seq<TranscriptWordModel>,
    pub content_sha256: Seq<char>,
    pub created_at: Seq<char>,
}

impl DeepView for TranscriptVersion {
    type V = TranscriptVersionModel;

    open spec fn deep_view(&self) -> TranscriptVersionModel {
        TranscriptVersionModel {
            id: self.id.deep_view(),
            source_asset_id: self.source_asset_id.deep_view(),
            source_clock_duration_us: self.source_clock_duration_us.deep_view(),
            language: self.language.deep_view(),
            timing_source: self.timing_source.deep_view(),
            preserved_source_gaps: self.preserved_source_gaps.deep_view(),
            segments: self.segments.deep_view(),
            words: self.words.deep_view(),
            content_sha256: self.content_sha256.deep_view(),
            created_at: self.created_at.deep_view(),
        }
    }
}

impl Model for TranscriptVersion {
    fn duplicate(&self) -> (copy: Self) {
        TranscriptVersion {
            id: self.id.duplicate(),
            source_asset_id: self.source_asset_id.duplicate(),
            source_clock_duration_us: self.source_clock_duration_us.duplicate(),
            language: self.language.duplicate(),
            timing_source: self.timing_source.duplicate(),
            preserved_source_gaps: self.preserved_source_gaps.duplicate(),
            segments: self.segments.duplicate(),
            words: self.words.duplicate(),
            content_sha256: self.content_sha256.duplicate(),
            created_at: self.created_at.duplicate(),
        }
    }

    fn same(&self, other: &Self) -> (equal: bool) {
        self.id.same(&other.id)
            && self.source_asset_id.same(&other.source_asset_id)
            && self.source_clock_duration_us.same(&other.source_clock_duration_us)
            && self.language.same(&other.language)
            && self.timing_source.same(&other.timing_source)
            && self.preserved_source_gaps.same(&other.preserved_source_gaps)
            && self.segments.same(&other.segments)
            && self.words.same(&other.words)
            && self.content_sha256.same(&other.content_sha256)
            && self.created_at.same(&other.created_at)
    }
}

impl Named for TranscriptVersion {
    open spec fn name_of(model: TranscriptVersionModel) -> Seq<char> {
        model.id
    }

    fn name(&self) -> (name: &String) {
        &self.id
    }
}

/// What was decided about a clip candidate.
#[derive(Clone, Copy, Debug, PartialEq, Eq, Structural)]
pub enum CandidateStatus {
    Proposed,
    Accepted,
    Rejected,
}

impl DeepView for CandidateStatus {
    type V = CandidateStatus;

    open spec fn deep_view(&self) -> CandidateStatus {
        *self
    }
}

impl Model for CandidateStatus {
    fn duplicate(&self) -> (copy: Self) {
        *self
    }

    fn same(&self, other: &Self) -> (equal: bool) {
        *self == *other
    }
}

/// A suggested range of one source.
#[derive(Clone, Debug, PartialEq, Eq)]
pub struct ClipCandidate {
    pub id: String,
    pub source_asset_id: String,
    pub source_range: TimeRange,
    pub title: String,
    pub rationale: String,
    pub transcript_segment_ids: Vec<String>,
    pub score_milli: u16,
    pub status: CandidateStatus,
}

/// What a [`ClipCandidate`] holds, as mathematical values.
pub struct ClipCandidateModel {
    pub id: Seq<char>,
    pub source_asset_id: Seq<char>,
    pub source_range: TimeRange,
    pub title: Seq<char>,
    pub rationale: Seq<char>,
    pub transcript_segment_ids: Seq<Seq<char>>,
    pub score_milli: u16,
    pub status: CandidateStatus,
}

impl DeepView for ClipCandidate {
    type V = ClipCandidateModel;

    open spec fn deep_view(&self) -> ClipCandidateModel {
        ClipCandidateModel {
            id: self.id.deep_view(),
            source_asset_id: self.source_asset_id.deep_view(),
            source_range: self.source_range.deep_view(),
            title: self.title.deep_view(),
            rationale: self.rationale.deep_view(),
            transcript_segment_ids: self.transcript_segment_ids.deep_view(),
            score_milli: self.score_milli.deep_view(),
            status: self.status.deep_view(),
        }
    }
}

impl Model for ClipCandidate {
    fn duplicate(&self) -> (copy: Self) {
        ClipCandidate {
            id: self.id.duplicate(),
            source_asset_id: self.source_asset_id.duplicate(),
            source_range: self.source_range.duplicate(),
            title: self.title.duplicate(),
            rationale: self.rationale.duplicate(),
            transcript_segment_ids: self.transcript_segment_ids.duplicate(),
            score_milli: self.score_milli.duplicate(),
            status: self.status.duplicate(),
        }
    }

    fn same(&self, other: &Self) -> (equal: bool) {
        self.id.same(&other.id)
            && self.source_asset_id.same(&other.source_asset_id)
            && self.source_range.same(&other.source_range)
            && self.title.same(&other.title)
            && self.rationale.same(&other.rationale)
            && self.transcript_segment_ids.same(&other.transcript_segment_ids)
            && self.score_milli.same(&other.score_milli)
            && self.status.same(&other.status)
    }
}

impl Named for ClipCandidate {
    open spec fn name_of(model: ClipCandidateModel) -> Seq<char> {
        model.id
    }

    fn name(&self) -> (name: &String) {
        &self.id
    }
}

/// What was decided about a scene.
#[derive(Clone, Copy, Debug, PartialEq, Eq, Structural)]
pub enum ReviewState {
    NeedsReview,
    Approved,
    ChangesRequested,
    Rejected,
}

impl DeepView for ReviewState {
    type V = ReviewState;

    open spec fn deep_view(&self) -> ReviewState {
        *self
    }
}

impl Model for ReviewState {
    fn duplicate(&self) -> (copy: Self) {
        *self
    }

    fn same(&self, other: &Self) -> (equal: bool) {
        *self == *other
    }
}

/// One scene of the timeline.
#[derive(Clone, Debug, PartialEq, Eq)]
pub struct ReviewedScene {
    pub id: String,
    pub candidate_id: Option<String>,
    pub source_asset_id: Option<String>,
    pub source_range: Option<TimeRange>,
    pub timeline_start_us: Microseconds,
    pub timeline_duration_us: Microseconds,
    pub title: String,
    pub script: String,
    pub review_state: ReviewState,
    pub revision: u32,
}

/// What a [`ReviewedScene`] holds, as mathematical values.
pub struct ReviewedSceneModel {
    pub id: Seq<char>,
    pub candidate_id: Option<Seq<char>>,
    pub source_asset_id: Option<Seq<char>>,
    pub source_range: Option<TimeRange>,
    pub timeline_start_us: Microseconds,
    pub timeline_duration_us: Microseconds,
    pub title: Seq<char>,
    pub script: Seq<char>,
    pub review_state: ReviewState,
    pub revision: u32,
}

impl DeepView for ReviewedScene {
    type V = ReviewedSceneModel;

    open spec fn deep_view(&self) -> ReviewedSceneModel {
        ReviewedSceneModel {
            id: self.id.deep_view(),
            candidate_id: self.candidate_id.deep_view(),
            source_asset_id: self.source_asset_id.deep_view(),
            source_range: self.source_range.deep_view(),
            timeline_start_us: self.timeline_start_us.deep_view(),
            timeline_duration_us: self.timeline_duration_us.deep_view(),
            title: self.title.deep_view(),
            script: self.script.deep_view(),
            review_state: self.review_state.deep_view(),
            revision: self.revision.deep_view(),
        }
    }
}

impl Model for ReviewedScene {
    fn duplicate(&self) -> (copy: Self) {
        ReviewedScene {
            id: self.id.duplicate(),
            candidate_id: self.candidate_id.duplicate(),
            source_asset_id: self.source_asset_id.duplicate(),
            source_range: self.source_range.duplicate(),
            timeline_start_us: self.timeline_start_us.duplicate(),
            timeline_duration_us: self.timeline_duration_us.duplicate(),
            title: self.title.duplicate(),
            script: self.script.duplicate(),
            review_state: self.review_state.duplicate(),
            revision: self.revision.duplicate(),
        }
    }

    fn same(&self, other: &Self) -> (equal: bool) {
        self.id.same(&other.id)
            && self.candidate_id.same(&other.candidate_id)
            && self.source_asset_id.same(&other.source_asset_id)
            && self.source_range.same(&other.source_range)
            && self.timeline_start_us.same(&other.timeline_start_us)
            && self.timeline_duration_us.same(&other.timeline_duration_us)
            && self.title.same(&other.title)
            && self.script.same(&other.script)
            && self.review_state.same(&other.review_state)
            && self.revision.same(&other.revision)
    }
}

impl Named for ReviewedScene {
    open spec fn name_of(model: ReviewedSceneModel) -> Seq<char> {
        model.id
    }

    fn name(&self) -> (name: &String) {
        &self.id
    }
}

/// What a timeline track carries.
#[derive(Clone, Copy, Debug, PartialEq, Eq, Structural)]
pub enum TrackKind {
    Video,
    Audio,
    Overlay,
    Caption,
}

impl DeepView for TrackKind {
    type V = TrackKind;

    open spec fn deep_view(&self) -> TrackKind {
        *self
    }
}

impl Model for TrackKind {
    fn duplicate(&self) -> (copy: Self) {
        *self
    }

    fn same(&self, other: &Self) -> (equal: bool) {
        *self == *other
    }
}

/// The media a clip plays: exactly one of the two.
#[derive(Clone, Debug, PartialEq, Eq)]
pub struct MediaReference {
    pub source_asset_id: Option<String>,
    pub render_artifact_id: Option<String>,
}

/// What a [`MediaReference`] holds, as mathematical values.
pub struct MediaReferenceModel {
    pub source_asset_id: Option<Seq<char>>,
    pub render_artifact_id: Option<Seq<char>>,
}

impl DeepView for MediaReference {
    type V = MediaReferenceModel;

    open spec fn deep_view(&self) -> MediaReferenceModel {
        MediaReferenceModel {
            source_asset_id: self.source_asset_id.deep_view(),
            render_artifact_id: self.render_artifact_id.deep_view(),
        }
    }
}

impl Model for MediaReference {
    fn duplicate(&self) -> (copy: Self) {
        MediaReference {
            source_asset_id: self.source_asset_id.duplicate(),
            render_artifact_id: self.render_artifact_id.duplicate(),
        }
    }

    fn same(&self, other: &Self) -> (equal: bool) {
        self.source_asset_id.same(&other.source_asset_id)
            && self.render_artifact_id.same(&other.render_artifact_id)
    }
}

/// A rectangle in basis points of the canvas.
#[derive(Clone, Copy, Debug, PartialEq, Eq, Structural)]
pub struct NormalizedRect {
    pub x_bp: i32,
    pub y_bp: i32,
    pub width_bp: i32,
    pub height_bp: i32,
}

impl DeepView for NormalizedRect {
    type V = NormalizedRect;

    open spec fn deep_view(&self) -> NormalizedRect {
        *self
    }
}

impl Model for NormalizedRect {
    fn duplicate(&self) -> (copy: Self) {
        *self
    }

    fn same(&self, other: &Self) -> (equal: bool) {
        *self == *other
    }
}

/// One clip on a track.
#[derive(Clone, Debug, PartialEq, Eq)]
pub struct TimelineClip {
    pub id: String,
    pub scene_id: Option<String>,
    /// The dialogue turn this clip performs.
    pub turn_id: Option<String>,
    pub media: MediaReference,
    pub source_range: TimeRange,
    pub timeline_start_us: Microseconds,
    pub timeline_duration_us: Microseconds,
    pub playback_rate: RationalRate,
    pub gain_db_milli: i32,
    pub muted: bool,
    pub crop: Option<NormalizedRect>,
}

/// What a [`TimelineClip`] holds, as mathematical values.
pub struct TimelineClipModel {
    pub id: Seq<char>,
    pub scene_id: Option<Seq<char>>,
    pub turn_id: Option<Seq<char>>,
    pub media: MediaReferenceModel,
    pub source_range: TimeRange,
    pub timeline_start_us: Microseconds,
    pub timeline_duration_us: Microseconds,
    pub playback_rate: RationalRate,
    pub gain_db_milli: i32,
    pub muted: bool,
    pub crop: Option<NormalizedRect>,
}

impl DeepView for TimelineClip {
    type V = TimelineClipModel;

    open spec fn deep_view(&self) -> TimelineClipModel {
        TimelineClipModel {
            id: self.id.deep_view(),
            scene_id: self.scene_id.deep_view(),
            turn_id: self.turn_id.deep_view(),
            media: self.media.deep_view(),
            source_range: self.source_range.deep_view(),
            timeline_start_us: self.timeline_start_us.deep_view(),
            timeline_duration_us: self.timeline_duration_us.deep_view(),
            playback_rate: self.playback_rate.deep_view(),
            gain_db_milli: self.gain_db_milli.deep_view(),
            muted: self.muted.deep_view(),
            crop: self.crop.deep_view(),
        }
    }
}

impl Model for TimelineClip {
    fn duplicate(&self) -> (copy: Self) {
        TimelineClip {
            id: self.id.duplicate(),
            scene_id: self.scene_id.duplicate(),
            turn_id: self.turn_id.duplicate(),
            media: self.media.duplicate(),
            source_range: self.source_range.duplicate(),
            timeline_start_us: self.timeline_start_us.duplicate(),
            timeline_duration_us: self.timeline_duration_us.duplicate(),
            playback_rate: self.playback_rate.duplicate(),
            gain_db_milli: self.gain_db_milli.duplicate(),
            muted: self.muted.duplicate(),
            crop: self.crop.duplicate(),
        }
    }

    fn same(&self, other: &Self) -> (equal: bool) {
        self.id.same(&other.id)
            && self.scene_id.same(&other.scene_id)
            && self.turn_id.same(&other.turn_id)
            && self.media.same(&other.media)
            && self.source_range.same(&other.source_range)
            && self.timeline_start_us.same(&other.timeline_start_us)
            && self.timeline_duration_us.same(&other.timeline_duration_us)
            && self.playback_rate.same(&other.playback_rate)
            && self.gain_db_milli.same(&other.gain_db_milli)
            && self.muted.same(&other.muted)
            && self.crop.same(&other.crop)
    }
}

impl Named for TimelineClip {
    open spec fn name_of(model: TimelineClipModel) -> Seq<char> {
        model.id
    }

    fn name(&self) -> (name: &String) {
        &self.id
    }
}

/// One track of the timeline.
#[derive(Clone, Debug, PartialEq, Eq)]
pub struct TimelineTrack {
    pub id: String,
    pub kind: TrackKind,
    pub clips: Vec<TimelineClip>,
    /// When true every hole must be represented by a matching TimelineGap.
    pub preserve_gaps: bool,
}

/// What a [`TimelineTrack`] holds, as mathematical values.
pub struct TimelineTrackModel {
    pub id: Seq<char>,
    pub kind: TrackKind,
    pub clips: Seq<TimelineClipModel>,
    pub preserve_gaps: bool,
}

impl DeepView for TimelineTrack {
    type V = TimelineTrackModel;

    open spec fn deep_view(&self) -> TimelineTrackModel {
        TimelineTrackModel {
            id: self.id.deep_view(),
            kind: self.kind.deep_view(),
            clips: self.clips.deep_view(),
            preserve_gaps: self.preserve_gaps.deep_view(),
        }
    }
}

impl Model for TimelineTrack {
    fn duplicate(&self) -> (copy: Self) {
        TimelineTrack {
            id: self.id.duplicate(),
            kind: self.kind.duplicate(),
            clips: self.clips.duplicate(),
            preserve_gaps: self.preserve_gaps.duplicate(),
        }
    }

    fn same(&self, other: &Self) -> (equal: bool) {
        self.id.same(&other.id)
            && self.kind.same(&other.kind)
            && self.clips.same(&other.clips)
            && self.preserve_gaps.same(&other.preserve_gaps)
    }
}

impl Named for TimelineTrack {
    open spec fn name_of(model: TimelineTrackModel) -> Seq<char> {
        model.id
    }

    fn name(&self) -> (name: &String) {
        &self.id
    }
}

/// Why a track is empty for a while.
#[derive(Clone, Copy, Debug, PartialEq, Eq, Structural)]
pub enum GapReason {
    SourceSilence,
    Editorial,
    Transition,
    Padding,
}

impl DeepView for GapReason {
    type V = GapReason;

    open spec fn deep_view(&self) -> GapReason {
        *self
    }
}

impl Model for GapReason {
    fn duplicate(&self) -> (copy: Self) {
        *self
    }

    fn same(&self, other: &Self) -> (equal: bool) {
        *self == *other
    }
}

/// An explicit hole in one track.
#[derive(Clone, Debug, PartialEq, Eq)]
pub struct TimelineGap {
    pub id: String,
    pub track_id: String,
    pub range: TimeRange,
    pub reason: GapReason,
    pub source_asset_id: Option<String>,
    pub source_range: Option<TimeRange>,
}

/// What a [`TimelineGap`] holds, as mathematical values.
pub struct TimelineGapModel {
    pub id: Seq<char>,
    pub track_id: Seq<char>,
    pub range: TimeRange,
    pub reason: GapReason,
    pub source_asset_id: Option<Seq<char>>,
    pub source_range: Option<TimeRange>,
}

impl DeepView for TimelineGap {
    type V = TimelineGapModel;

    open spec fn deep_view(&self) -> TimelineGapModel {
        TimelineGapModel {
            id: self.id.deep_view(),
            track_id: self.track_id.deep_view(),
            range: self.range.deep_view(),
            reason: self.reason.deep_view(),
            source_asset_id: self.source_asset_id.deep_view(),
            source_range: self.source_range.deep_view(),
        }
    }
}

impl Model for TimelineGap {
    fn duplicate(&self) -> (copy: Self) {
        TimelineGap {
            id: self.id.duplicate(),
            track_id: self.track_id.duplicate(),
            range: self.range.duplicate(),
            reason: self.reason.duplicate(),
            source_asset_id: self.source_asset_id.duplicate(),
            source_range: self.source_range.duplicate(),
        }
    }

    fn same(&self, other: &Self) -> (equal: bool) {
        self.id.same(&other.id)
            && self.track_id.same(&other.track_id)
            && self.range.same(&other.range)
            && self.reason.same(&other.reason)
            && self.source_asset_id.same(&other.source_asset_id)
            && self.source_range.same(&other.source_range)
    }
}

impl Named for TimelineGap {
    open spec fn name_of(model: TimelineGapModel) -> Seq<char> {
        model.id
    }

    fn name(&self) -> (name: &String) {
        &self.id
    }
}

/// One caption on the timeline.
#[derive(Clone, Debug, PartialEq, Eq)]
pub struct CaptionCue {
    pub id: String,
    pub range: TimeRange,
    pub text: String,
    pub style_id: String,
    pub speaker_id: Option<String>,
    pub transcript_segment_id: Option<String>,
    pub scene_id: Option<String>,
}

/// What a [`CaptionCue`] holds, as mathematical values.
pub struct CaptionCueModel {
    pub id: Seq<char>,
    pub range: TimeRange,
    pub text: Seq<char>,
    pub style_id: Seq<char>,
    pub speaker_id: Option<Seq<char>>,
    pub transcript_segment_id: Option<Seq<char>>,
    pub scene_id: Option<Seq<char>>,
}

impl DeepView for CaptionCue {
    type V = CaptionCueModel;

    open spec fn deep_view(&self) -> CaptionCueModel {
        CaptionCueModel {
            id: self.id.deep_view(),
            range: self.range.deep_view(),
            text: self.text.deep_view(),
            style_id: self.style_id.deep_view(),
            speaker_id: self.speaker_id.deep_view(),
            transcript_segment_id: self.transcript_segment_id.deep_view(),
            scene_id: self.scene_id.deep_view(),
        }
    }
}

impl Model for CaptionCue {
    fn duplicate(&self) -> (copy: Self) {
        CaptionCue {
            id: self.id.duplicate(),
            range: self.range.duplicate(),
            text: self.text.duplicate(),
            style_id: self.style_id.duplicate(),
            speaker_id: self.speaker_id.duplicate(),
            transcript_segment_id: self.transcript_segment_id.duplicate(),
            scene_id: self.scene_id.duplicate(),
        }
    }

    fn same(&self, other: &Self) -> (equal: bool) {
        self.id.same(&other.id)
            && self.range.same(&other.range)
            && self.text.same(&other.text)
            && self.style_id.same(&other.style_id)
            && self.speaker_id.same(&other.speaker_id)
            && self.transcript_segment_id.same(&other.transcript_segment_id)
            && self.scene_id.same(&other.scene_id)
    }
}

impl Named for CaptionCue {
    open spec fn name_of(model: CaptionCueModel) -> Seq<char> {
        model.id
    }

    fn name(&self) -> (name: &String) {
        &self.id
    }
}

/// The shape of the canvas.
#[derive(Clone, Copy, Debug, PartialEq, Eq, Structural)]
pub enum CanvasMode {
    Portrait,
    Landscape,
    Square,
    Custom,
}

impl DeepView for CanvasMode {
    type V = CanvasMode;

    open spec fn deep_view(&self) -> CanvasMode {
        *self
    }
}

impl Model for CanvasMode {
    fn duplicate(&self) -> (copy: Self) {
        *self
    }

    fn same(&self, other: &Self) -> (equal: bool) {
        *self == *other
    }
}

/// The canvas in pixels.
#[derive(Clone, Copy, Debug, PartialEq, Eq, Structural)]
pub struct CanvasSpec {
    pub width: u32,
    pub height: u32,
    pub pixel_aspect_numerator: u32,
    pub pixel_aspect_denominator: u32,
}

impl DeepView for CanvasSpec {
    type V = CanvasSpec;

    open spec fn deep_view(&self) -> CanvasSpec {
        *self
    }
}

impl Model for CanvasSpec {
    fn duplicate(&self) -> (copy: Self) {
        *self
    }

    fn same(&self, other: &Self) -> (equal: bool) {
        *self == *other
    }
}

/// What a layout element shows.
#[derive(Clone, Copy, Debug, PartialEq, Eq, Structural)]
pub enum LayoutRole {
    PrimaryVideo,
    SecondaryVideo,
    SpeakerCard,
    TitleCard,
    Captions,
    Waveform,
    KineticText,
    Artwork,
}

impl DeepView for LayoutRole {
    type V = LayoutRole;

    open spec fn deep_view(&self) -> LayoutRole {
        *self
    }
}

impl Model for LayoutRole {
    fn duplicate(&self) -> (copy: Self) {
        *self
    }

    fn same(&self, other: &Self) -> (equal: bool) {
        *self == *other
    }
}

/// One element of the layout.
#[derive(Clone, Debug, PartialEq, Eq)]
pub struct LayoutElement {
    pub id: String,
    pub role: LayoutRole,
    pub scene_id: Option<String>,
    pub bounds: NormalizedRect,
    pub z_index: i16,
    pub style_id: Option<String>,
}

/// What a [`LayoutElement`] holds, as mathematical values.
pub struct LayoutElementModel {
    pub id: Seq<char>,
    pub role: LayoutRole,
    pub scene_id: Option<Seq<char>>,
    pub bounds: NormalizedRect,
    pub z_index: i16,
    pub style_id: Option<Seq<char>>,
}

impl DeepView for LayoutElement {
    type V = LayoutElementModel;

    open spec fn deep_view(&self) -> LayoutElementModel {
        LayoutElementModel {
            id: self.id.deep_view(),
            role: self.role.deep_view(),
            scene_id: self.scene_id.deep_view(),
            bounds: self.bounds.deep_view(),
            z_index: self.z_index.deep_view(),
            style_id: self.style_id.deep_view(),
        }
    }
}

impl Model for LayoutElement {
    fn duplicate(&self) -> (copy: Self) {
        LayoutElement {
            id: self.id.duplicate(),
            role: self.role.duplicate(),
            scene_id: self.scene_id.duplicate(),
            bounds: self.bounds.duplicate(),
            z_index: self.z_index.duplicate(),
            style_id: self.style_id.duplicate(),
        }
    }

    fn same(&self, other: &Self) -> (equal: bool) {
        self.id.same(&other.id)
            && self.role.same(&other.role)
            && self.scene_id.same(&other.scene_id)
            && self.bounds.same(&other.bounds)
            && self.z_index.same(&other.z_index)
            && self.style_id.same(&other.style_id)
    }
}

impl Named for LayoutElement {
    open spec fn name_of(model: LayoutElementModel) -> Seq<char> {
        model.id
    }

    fn name(&self) -> (name: &String) {
        &self.id
    }
}

/// The canvas and what stands on it.
#[derive(Clone, Debug, PartialEq, Eq)]
pub struct LayoutPlan {
    pub mode: CanvasMode,
    pub canvas: CanvasSpec,
    pub safe_area: NormalizedRect,
    pub background_rgba: [u8; 4],
    pub elements: Vec<LayoutElement>,
}

/// What a [`LayoutPlan`] holds, as mathematical values.
pub struct LayoutPlanModel {
    pub mode: CanvasMode,
    pub canvas: CanvasSpec,
    pub safe_area: NormalizedRect,
    pub background_rgba: Seq<u8>,
    pub elements: Seq<LayoutElementModel>,
}

impl DeepView for LayoutPlan {
    type V = LayoutPlanModel;

    open spec fn deep_view(&self) -> LayoutPlanModel {
        LayoutPlanModel {
            mode: self.mode.deep_view(),
            canvas: self.canvas.deep_view(),
            safe_area: self.safe_area.deep_view(),
            background_rgba: self.background_rgba.deep_view(),
            elements: self.elements.deep_view(),
        }
    }
}

impl Model for LayoutPlan {
    fn duplicate(&self) -> (copy: Self) {
        LayoutPlan {
            mode: self.mode.duplicate(),
            canvas: self.canvas.duplicate(),
            safe_area: self.safe_area.duplicate(),
            background_rgba: self.background_rgba.duplicate(),
            elements: self.elements.duplicate(),
        }
    }

    fn same(&self, other: &Self) -> (equal: bool) {
        self.mode.same(&other.mode)
            && self.canvas.same(&other.canvas)
            && self.safe_area.same(&other.safe_area)
            && self.background_rgba.same(&other.background_rgba)
            && self.elements.same(&other.elements)
    }
}

/// How one track gives way to another.
#[derive(Clone, Debug, PartialEq, Eq)]
pub struct DuckingSpec {
    pub sidechain_track_id: String,
    pub reduction_db_milli: i32,
    pub attack_us: Microseconds,
    pub release_us: Microseconds,
}

/// What a [`DuckingSpec`] holds, as mathematical values.
pub struct DuckingSpecModel {
    pub sidechain_track_id: Seq<char>,
    pub reduction_db_milli: i32,
    pub attack_us: Microseconds,
    pub release_us: Microseconds,
}

impl DeepView for DuckingSpec {
    type V = DuckingSpecModel;

    open spec fn deep_view(&self) -> DuckingSpecModel {
        DuckingSpecModel {
            sidechain_track_id: self.sidechain_track_id.deep_view(),
            reduction_db_milli: self.reduction_db_milli.deep_view(),
            attack_us: self.attack_us.deep_view(),
            release_us: self.release_us.deep_view(),
        }
    }
}

impl Model for DuckingSpec {
    fn duplicate(&self) -> (copy: Self) {
        DuckingSpec {
            sidechain_track_id: self.sidechain_track_id.duplicate(),
            reduction_db_milli: self.reduction_db_milli.duplicate(),
            attack_us: self.attack_us.duplicate(),
            release_us: self.release_us.duplicate(),
        }
    }

    fn same(&self, other: &Self) -> (equal: bool) {
        self.sidechain_track_id.same(&other.sidechain_track_id)
            && self.reduction_db_milli.same(&other.reduction_db_milli)
            && self.attack_us.same(&other.attack_us)
            && self.release_us.same(&other.release_us)
    }
}

/// The mix settings of one audio track.
#[derive(Clone, Debug, PartialEq, Eq)]
pub struct AudioMixTrack {
    pub track_id: String,
    pub gain_db_milli: i32,
    pub pan_milli: i16,
    pub ducking: Option<DuckingSpec>,
}

/// What a [`AudioMixTrack`] holds, as mathematical values.
pub struct AudioMixTrackModel {
    pub track_id: Seq<char>,
    pub gain_db_milli: i32,
    pub pan_milli: i16,
    pub ducking: Option<DuckingSpecModel>,
}

impl DeepView for AudioMixTrack {
    type V = AudioMixTrackModel;

    open spec fn deep_view(&self) -> AudioMixTrackModel {
        AudioMixTrackModel {
            track_id: self.track_id.deep_view(),
            gain_db_milli: self.gain_db_milli.deep_view(),
            pan_milli: self.pan_milli.deep_view(),
            ducking: self.ducking.deep_view(),
        }
    }
}

impl Model for AudioMixTrack {
    fn duplicate(&self) -> (copy: Self) {
        AudioMixTrack {
            track_id: self.track_id.duplicate(),
            gain_db_milli: self.gain_db_milli.duplicate(),
            pan_milli: self.pan_milli.duplicate(),
            ducking: self.ducking.duplicate(),
        }
    }

    fn same(&self, other: &Self) -> (equal: bool) {
        self.track_id.same(&other.track_id)
            && self.gain_db_milli.same(&other.gain_db_milli)
            && self.pan_milli.same(&other.pan_milli)
            && self.ducking.same(&other.ducking)
    }
}

impl Named for AudioMixTrack {
    open spec fn name_of(model: AudioMixTrackModel) -> Seq<char> {
        model.track_id
    }

    fn name(&self) -> (name: &String) {
        &self.track_id
    }
}

/// The master and per-track mix settings.
#[derive(Clone, Debug, PartialEq, Eq)]
pub struct AudioMix {
    pub target_lufs_milli: i32,
    pub true_peak_db_milli: i32,
    pub tracks: Vec<AudioMixTrack>,
}

/// What a [`AudioMix`] holds, as mathematical values.
pub struct AudioMixModel {
    pub target_lufs_milli: i32,
    pub true_peak_db_milli: i32,
    pub tracks: Seq<AudioMixTrackModel>,
}

impl DeepView for AudioMix {
    type V = AudioMixModel;

    open spec fn deep_view(&self) -> AudioMixModel {
        AudioMixModel {
            target_lufs_milli: self.target_lufs_milli.deep_view(),
            true_peak_db_milli: self.true_peak_db_milli.deep_view(),
            tracks: self.tracks.deep_view(),
        }
    }
}

impl Model for AudioMix {
    fn duplicate(&self) -> (copy: Self) {
        AudioMix {
            target_lufs_milli: self.target_lufs_milli.duplicate(),
            true_peak_db_milli: self.true_peak_db_milli.duplicate(),
            tracks: self.tracks.duplicate(),
        }
    }

    fn same(&self, other: &Self) -> (equal: bool) {
        self.target_lufs_milli.same(&other.target_lufs_milli)
            && self.true_peak_db_milli.same(&other.true_peak_db_milli)
            && self.tracks.same(&other.tracks)
    }
}

/// What a rendered file is for.
#[derive(Clone, Copy, Debug, PartialEq, Eq, Structural)]
pub enum RenderArtifactRole {
    Proxy,
    Thumbnail,
    Waveform,
    SceneSegment,
    Preview,
    FinalMaster,
    Captions,
    Transcript,
    PublishPackage,
}

impl DeepView for RenderArtifactRole {
    type V = RenderArtifactRole;

    open spec fn deep_view(&self) -> RenderArtifactRole {
        *self
    }
}

impl Model for RenderArtifactRole {
    fn duplicate(&self) -> (copy: Self) {
        *self
    }

    fn same(&self, other: &Self) -> (equal: bool) {
        *self == *other
    }
}

/// Whether a rendered file may be used.
#[derive(Clone, Copy, Debug, PartialEq, Eq, Structural)]
pub enum PublicationState {
    Staged,
    Published,
    Superseded,
    Failed,
}

impl DeepView for PublicationState {
    type V = PublicationState;

    open spec fn deep_view(&self) -> PublicationState {
        *self
    }
}

impl Model for PublicationState {
    fn duplicate(&self) -> (copy: Self) {
        *self
    }

    fn same(&self, other: &Self) -> (equal: bool) {
        *self == *other
    }
}

/// One rendered file.
#[derive(Clone, Debug, PartialEq, Eq)]
pub struct RenderArtifact {
    pub id: String,
    pub role: RenderArtifactRole,
    pub scene_id: Option<String>,
    pub managed_path: String,
    pub sha256: String,
    pub cache_key: String,
    pub mime_type: String,
    pub duration_us: Option<Microseconds>,
    pub width: Option<u32>,
    pub height: Option<u32>,
    pub publication_state: PublicationState,
    pub created_at: String,
}

/// What a [`RenderArtifact`] holds, as mathematical values.
pub struct RenderArtifactModel {
    pub id: Seq<char>,
    pub role: RenderArtifactRole,
    pub scene_id: Option<Seq<char>>,
    pub managed_path: Seq<char>,
    pub sha256: Seq<char>,
    pub cache_key: Seq<char>,
    pub mime_type: Seq<char>,
    pub duration_us: Option<Microseconds>,
    pub width: Option<u32>,
    pub height: Option<u32>,
    pub publication_state: PublicationState,
    pub created_at: Seq<char>,
}

impl DeepView for RenderArtifact {
    type V = RenderArtifactModel;

    open spec fn deep_view(&self) -> RenderArtifactModel {
        RenderArtifactModel {
            id: self.id.deep_view(),
            role: self.role.deep_view(),
            scene_id: self.scene_id.deep_view(),
            managed_path: self.managed_path.deep_view(),
            sha256: self.sha256.deep_view(),
            cache_key: self.cache_key.deep_view(),
            mime_type: self.mime_type.deep_view(),
            duration_us: self.duration_us.deep_view(),
            width: self.width.deep_view(),
            height: self.height.deep_view(),
            publication_state: self.publication_state.deep_view(),
            created_at: self.created_at.deep_view(),
        }
    }
}

impl Model for RenderArtifact {
    fn duplicate(&self) -> (copy: Self) {
        RenderArtifact {
            id: self.id.duplicate(),
            role: self.role.duplicate(),
            scene_id: self.scene_id.duplicate(),
            managed_path: self.managed_path.duplicate(),
            sha256: self.sha256.duplicate(),
            cache_key: self.cache_key.duplicate(),
            mime_type: self.mime_type.duplicate(),
            duration_us: self.duration_us.duplicate(),
            width: self.width.duplicate(),
            height: self.height.duplicate(),
            publication_state: self.publication_state.duplicate(),
            created_at: self.created_at.duplicate(),
        }
    }

    fn same(&self, other: &Self) -> (equal: bool) {
        self.id.same(&other.id)
            && self.role.same(&other.role)
            && self.scene_id.same(&other.scene_id)
            && self.managed_path.same(&other.managed_path)
            && self.sha256.same(&other.sha256)
            && self.cache_key.same(&other.cache_key)
            && self.mime_type.same(&other.mime_type)
            && self.duration_us.same(&other.duration_us)
            && self.width.same(&other.width)
            && self.height.same(&other.height)
            && self.publication_state.same(&other.publication_state)
            && self.created_at.same(&other.created_at)
    }
}

impl Named for RenderArtifact {
    open spec fn name_of(model: RenderArtifactModel) -> Seq<char> {
        model.id
    }

    fn name(&self) -> (name: &String) {
        &self.id
    }
}

/// Whether a take is a stand-in or the performance that ships.
#[derive(Clone, Copy, Debug, PartialEq, Eq, Structural)]
pub enum TakeFidelity {
    Draft,
    Final,
}

impl DeepView for TakeFidelity {
    type V = TakeFidelity;

    open spec fn deep_view(&self) -> TakeFidelity {
        *self
    }
}

impl Model for TakeFidelity {
    fn duplicate(&self) -> (copy: Self) {
        *self
    }

    fn same(&self, other: &Self) -> (equal: bool) {
        *self == *other
    }
}

/// Binds the active generated narration for a scene or a dialogue turn to both its soundAr History
/// provenance and the immutable managed artifact used by the canonical timeline.
/// 
/// The generation route is stored explicitly so a later voice revision can be reproduced without
/// guessing which model, speaker, or consent-backed voice was used. `script_sha256` prevents a
/// narration take from silently surviving a script edit that changed the words it is meant to speak.
#[derive(Clone, Debug, PartialEq, Eq)]
pub struct NarrationBinding {
    pub id: String,
    pub scene_id: Option<String>,
    /// The dialogue turn this take performs.
    pub turn_id: Option<String>,
    /// The character who speaks in this take.
    pub character_id: Option<String>,
    pub render_artifact_id: String,
    pub history_id: String,
    pub generation_job_id: String,
    pub voice_id: String,
    pub model_id: String,
    pub speaker: String,
    pub language: String,
    pub script_sha256: String,
    /// The pronunciation rules this take was produced under.
    pub lexicon_fingerprint: Option<String>,
    pub fidelity: TakeFidelity,
    pub created_at: String,
}

/// What a [`NarrationBinding`] holds, as mathematical values.
pub struct NarrationBindingModel {
    pub id: Seq<char>,
    pub scene_id: Option<Seq<char>>,
    pub turn_id: Option<Seq<char>>,
    pub character_id: Option<Seq<char>>,
    pub render_artifact_id: Seq<char>,
    pub history_id: Seq<char>,
    pub generation_job_id: Seq<char>,
    pub voice_id: Seq<char>,
    pub model_id: Seq<char>,
    pub speaker: Seq<char>,
    pub language: Seq<char>,
    pub script_sha256: Seq<char>,
    pub lexicon_fingerprint: Option<Seq<char>>,
    pub fidelity: TakeFidelity,
    pub created_at: Seq<char>,
}

impl DeepView for NarrationBinding {
    type V = NarrationBindingModel;

    open spec fn deep_view(&self) -> NarrationBindingModel {
        NarrationBindingModel {
            id: self.id.deep_view(),
            scene_id: self.scene_id.deep_view(),
            turn_id: self.turn_id.deep_view(),
            character_id: self.character_id.deep_view(),
            render_artifact_id: self.render_artifact_id.deep_view(),
            history_id: self.history_id.deep_view(),
            generation_job_id: self.generation_job_id.deep_view(),
            voice_id: self.voice_id.deep_view(),
            model_id: self.model_id.deep_view(),
            speaker: self.speaker.deep_view(),
            language: self.language.deep_view(),
            script_sha256: self.script_sha256.deep_view(),
            lexicon_fingerprint: self.lexicon_fingerprint.deep_view(),
            fidelity: self.fidelity.deep_view(),
            created_at: self.created_at.deep_view(),
        }
    }
}

impl Model for NarrationBinding {
    fn duplicate(&self) -> (copy: Self) {
        NarrationBinding {
            id: self.id.duplicate(),
            scene_id: self.scene_id.duplicate(),
            turn_id: self.turn_id.duplicate(),
            character_id: self.character_id.duplicate(),
            render_artifact_id: self.render_artifact_id.duplicate(),
            history_id: self.history_id.duplicate(),
            generation_job_id: self.generation_job_id.duplicate(),
            voice_id: self.voice_id.duplicate(),
            model_id: self.model_id.duplicate(),
            speaker: self.speaker.duplicate(),
            language: self.language.duplicate(),
            script_sha256: self.script_sha256.duplicate(),
            lexicon_fingerprint: self.lexicon_fingerprint.duplicate(),
            fidelity: self.fidelity.duplicate(),
            created_at: self.created_at.duplicate(),
        }
    }

    fn same(&self, other: &Self) -> (equal: bool) {
        self.id.same(&other.id)
            && self.scene_id.same(&other.scene_id)
            && self.turn_id.same(&other.turn_id)
            && self.character_id.same(&other.character_id)
            && self.render_artifact_id.same(&other.render_artifact_id)
            && self.history_id.same(&other.history_id)
            && self.generation_job_id.same(&other.generation_job_id)
            && self.voice_id.same(&other.voice_id)
            && self.model_id.same(&other.model_id)
            && self.speaker.same(&other.speaker)
            && self.language.same(&other.language)
            && self.script_sha256.same(&other.script_sha256)
            && self.lexicon_fingerprint.same(&other.lexicon_fingerprint)
            && self.fidelity.same(&other.fidelity)
            && self.created_at.same(&other.created_at)
    }
}

impl Named for NarrationBinding {
    open spec fn name_of(model: NarrationBindingModel) -> Seq<char> {
        model.id
    }

    fn name(&self) -> (name: &String) {
        &self.id
    }
}

/// A stage of the pipeline that a revision may invalidate.
#[derive(Clone, Copy, Debug, PartialEq, Eq, PartialOrd, Ord, Structural)]
pub enum RevisionStage {
    Ingest,
    Transcript,
    Analysis,
    Plan,
    Speech,
    Music,
    Captions,
    Tracking,
    SceneRender,
    Preview,
    FinalRender,
    PublishPackage,
}

impl DeepView for RevisionStage {
    type V = RevisionStage;

    open spec fn deep_view(&self) -> RevisionStage {
        *self
    }
}

impl Model for RevisionStage {
    fn duplicate(&self) -> (copy: Self) {
        *self
    }

    fn same(&self, other: &Self) -> (equal: bool) {
        *self == *other
    }
}

/// One entry of the project's history.
#[derive(Clone, Debug, PartialEq, Eq)]
pub struct RevisionRecord {
    pub id: String,
    pub revision: u64,
    pub parent_id: Option<String>,
    pub actor: String,
    pub reason: String,
    pub changed_paths: Vec<String>,
    pub invalidated_stages: Vec<RevisionStage>,
    pub created_at: String,
}

/// What a [`RevisionRecord`] holds, as mathematical values.
pub struct RevisionRecordModel {
    pub id: Seq<char>,
    pub revision: u64,
    pub parent_id: Option<Seq<char>>,
    pub actor: Seq<char>,
    pub reason: Seq<char>,
    pub changed_paths: Seq<Seq<char>>,
    pub invalidated_stages: Seq<RevisionStage>,
    pub created_at: Seq<char>,
}

impl DeepView for RevisionRecord {
    type V = RevisionRecordModel;

    open spec fn deep_view(&self) -> RevisionRecordModel {
        RevisionRecordModel {
            id: self.id.deep_view(),
            revision: self.revision.deep_view(),
            parent_id: self.parent_id.deep_view(),
            actor: self.actor.deep_view(),
            reason: self.reason.deep_view(),
            changed_paths: self.changed_paths.deep_view(),
            invalidated_stages: self.invalidated_stages.deep_view(),
            created_at: self.created_at.deep_view(),
        }
    }
}

impl Model for RevisionRecord {
    fn duplicate(&self) -> (copy: Self) {
        RevisionRecord {
            id: self.id.duplicate(),
            revision: self.revision.duplicate(),
            parent_id: self.parent_id.duplicate(),
            actor: self.actor.duplicate(),
            reason: self.reason.duplicate(),
            changed_paths: self.changed_paths.duplicate(),
            invalidated_stages: self.invalidated_stages.duplicate(),
            created_at: self.created_at.duplicate(),
        }
    }

    fn same(&self, other: &Self) -> (equal: bool) {
        self.id.same(&other.id)
            && self.revision.same(&other.revision)
            && self.parent_id.same(&other.parent_id)
            && self.actor.same(&other.actor)
            && self.reason.same(&other.reason)
            && self.changed_paths.same(&other.changed_paths)
            && self.invalidated_stages.same(&other.invalidated_stages)
            && self.created_at.same(&other.created_at)
    }
}

impl Named for RevisionRecord {
    open spec fn name_of(model: RevisionRecordModel) -> Seq<char> {
        model.id
    }

    fn name(&self) -> (name: &String) {
        &self.id
    }
}

/// Per-character delivery defaults, in milli-units so a saved performance is reproducible without
/// float drift across a save, reload, and re-render.
/// 
/// These are defaults, not guarantees. An engine that does not declare support for a control ignores
/// it; the recorded value still travels with the take so a later re-render on a capable engine
/// reproduces the intended performance rather than guessing at it.
#[derive(Clone, Copy, Debug, PartialEq, Eq, Structural)]
pub struct CastDelivery {
    pub rate_milli: i32,
    pub pitch_milli: i32,
    pub energy_milli: i32,
}

impl DeepView for CastDelivery {
    type V = CastDelivery;

    open spec fn deep_view(&self) -> CastDelivery {
        *self
    }
}

impl Model for CastDelivery {
    fn duplicate(&self) -> (copy: Self) {
        *self
    }

    fn same(&self, other: &Self) -> (equal: bool) {
        *self == *other
    }
}

/// One named character bound to the exact route that performs it.
/// 
/// `name` is the token used in the script (`ADAEZE: ...`). It is matched case-insensitively so a
/// writer is not forced to keep capitalization consistent, but it is stored exactly as declared so
/// the cast list reads the way the author wrote it.
#[derive(Clone, Debug, PartialEq, Eq)]
pub struct CastMember {
    pub id: String,
    pub name: String,
    pub display_name: String,
    pub voice_id: String,
    pub model_id: String,
    pub language: String,
    pub delivery: CastDelivery,
    /// Present when this character is performed by a consent-backed managed voice reference.
    pub consent_reference_id: Option<String>,
    pub notes: Option<String>,
    pub created_at: String,
}

/// What a [`CastMember`] holds, as mathematical values.
pub struct CastMemberModel {
    pub id: Seq<char>,
    pub name: Seq<char>,
    pub display_name: Seq<char>,
    pub voice_id: Seq<char>,
    pub model_id: Seq<char>,
    pub language: Seq<char>,
    pub delivery: CastDelivery,
    pub consent_reference_id: Option<Seq<char>>,
    pub notes: Option<Seq<char>>,
    pub created_at: Seq<char>,
}

impl DeepView for CastMember {
    type V = CastMemberModel;

    open spec fn deep_view(&self) -> CastMemberModel {
        CastMemberModel {
            id: self.id.deep_view(),
            name: self.name.deep_view(),
            display_name: self.display_name.deep_view(),
            voice_id: self.voice_id.deep_view(),
            model_id: self.model_id.deep_view(),
            language: self.language.deep_view(),
            delivery: self.delivery.deep_view(),
            consent_reference_id: self.consent_reference_id.deep_view(),
            notes: self.notes.deep_view(),
            created_at: self.created_at.deep_view(),
        }
    }
}

impl Model for CastMember {
    fn duplicate(&self) -> (copy: Self) {
        CastMember {
            id: self.id.duplicate(),
            name: self.name.duplicate(),
            display_name: self.display_name.duplicate(),
            voice_id: self.voice_id.duplicate(),
            model_id: self.model_id.duplicate(),
            language: self.language.duplicate(),
            delivery: self.delivery.duplicate(),
            consent_reference_id: self.consent_reference_id.duplicate(),
            notes: self.notes.duplicate(),
            created_at: self.created_at.duplicate(),
        }
    }

    fn same(&self, other: &Self) -> (equal: bool) {
        self.id.same(&other.id)
            && self.name.same(&other.name)
            && self.display_name.same(&other.display_name)
            && self.voice_id.same(&other.voice_id)
            && self.model_id.same(&other.model_id)
            && self.language.same(&other.language)
            && self.delivery.same(&other.delivery)
            && self.consent_reference_id.same(&other.consent_reference_id)
            && self.notes.same(&other.notes)
            && self.created_at.same(&other.created_at)
    }
}

impl Named for CastMember {
    open spec fn name_of(model: CastMemberModel) -> Seq<char> {
        model.id
    }

    fn name(&self) -> (name: &String) {
        &self.id
    }
}

/// One character's uninterrupted contribution to the script.
/// 
/// `text` is exactly what the voice is asked to speak. A parenthetical `direction` steers performance
/// and beat selection but is never spoken, so it is stored separately.
#[derive(Clone, Debug, PartialEq, Eq)]
pub struct DialogueTurn {
    pub id: String,
    pub scene_id: Option<String>,
    pub order: u32,
    pub character_id: String,
    pub text: String,
    pub direction: Option<String>,
    /// 1-indexed line in the script this turn was parsed from.
    pub source_line: u32,
    pub revision: u32,
}

/// What a [`DialogueTurn`] holds, as mathematical values.
pub struct DialogueTurnModel {
    pub id: Seq<char>,
    pub scene_id: Option<Seq<char>>,
    pub order: u32,
    pub character_id: Seq<char>,
    pub text: Seq<char>,
    pub direction: Option<Seq<char>>,
    pub source_line: u32,
    pub revision: u32,
}

impl DeepView for DialogueTurn {
    type V = DialogueTurnModel;

    open spec fn deep_view(&self) -> DialogueTurnModel {
        DialogueTurnModel {
            id: self.id.deep_view(),
            scene_id: self.scene_id.deep_view(),
            order: self.order.deep_view(),
            character_id: self.character_id.deep_view(),
            text: self.text.deep_view(),
            direction: self.direction.deep_view(),
            source_line: self.source_line.deep_view(),
            revision: self.revision.deep_view(),
        }
    }
}

impl Model for DialogueTurn {
    fn duplicate(&self) -> (copy: Self) {
        DialogueTurn {
            id: self.id.duplicate(),
            scene_id: self.scene_id.duplicate(),
            order: self.order.duplicate(),
            character_id: self.character_id.duplicate(),
            text: self.text.duplicate(),
            direction: self.direction.duplicate(),
            source_line: self.source_line.duplicate(),
            revision: self.revision.duplicate(),
        }
    }

    fn same(&self, other: &Self) -> (equal: bool) {
        self.id.same(&other.id)
            && self.scene_id.same(&other.scene_id)
            && self.order.same(&other.order)
            && self.character_id.same(&other.character_id)
            && self.text.same(&other.text)
            && self.direction.same(&other.direction)
            && self.source_line.same(&other.source_line)
            && self.revision.same(&other.revision)
    }
}

impl Named for DialogueTurn {
    open spec fn name_of(model: DialogueTurnModel) -> Seq<char> {
        model.id
    }

    fn name(&self) -> (name: &String) {
        &self.id
    }
}

/// Who chose a beat.
#[derive(Clone, Copy, Debug, PartialEq, Eq, Structural)]
pub enum BeatSource {
    Explicit,
    Derived,
}

impl DeepView for BeatSource {
    type V = BeatSource;

    open spec fn deep_view(&self) -> BeatSource {
        *self
    }
}

impl Model for BeatSource {
    fn duplicate(&self) -> (copy: Self) {
        *self
    }

    fn same(&self, other: &Self) -> (equal: bool) {
        *self == *other
    }
}

/// The silence before one dialogue turn, or its overlap with the turn before.
#[derive(Clone, Debug, PartialEq, Eq)]
pub struct TurnBeat {
    pub turn_id: String,
    pub lead_in_us: Microseconds,
    pub overlap_us: Microseconds,
    pub source: BeatSource,
}

/// What a [`TurnBeat`] holds, as mathematical values.
pub struct TurnBeatModel {
    pub turn_id: Seq<char>,
    pub lead_in_us: Microseconds,
    pub overlap_us: Microseconds,
    pub source: BeatSource,
}

impl DeepView for TurnBeat {
    type V = TurnBeatModel;

    open spec fn deep_view(&self) -> TurnBeatModel {
        TurnBeatModel {
            turn_id: self.turn_id.deep_view(),
            lead_in_us: self.lead_in_us.deep_view(),
            overlap_us: self.overlap_us.deep_view(),
            source: self.source.deep_view(),
        }
    }
}

impl Model for TurnBeat {
    fn duplicate(&self) -> (copy: Self) {
        TurnBeat {
            turn_id: self.turn_id.duplicate(),
            lead_in_us: self.lead_in_us.duplicate(),
            overlap_us: self.overlap_us.duplicate(),
            source: self.source.duplicate(),
        }
    }

    fn same(&self, other: &Self) -> (equal: bool) {
        self.turn_id.same(&other.turn_id)
            && self.lead_in_us.same(&other.lead_in_us)
            && self.overlap_us.same(&other.overlap_us)
            && self.source.same(&other.source)
    }
}

impl Named for TurnBeat {
    open spec fn name_of(model: TurnBeatModel) -> Seq<char> {
        model.turn_id
    }

    fn name(&self) -> (name: &String) {
        &self.turn_id
    }
}

/// Which rules a lexicon entry belongs to, and therefore which lines it can change.
///
/// Precedence runs `Character` before `Project` before `Global`: the most specific rule wins.
#[derive(Clone, Copy, Debug, PartialEq, Eq, PartialOrd, Ord, Structural)]
pub enum LexiconScope {
    Character,
    Project,
    Global,
}

impl DeepView for LexiconScope {
    type V = LexiconScope;

    open spec fn deep_view(&self) -> LexiconScope {
        *self
    }
}

impl Model for LexiconScope {
    fn duplicate(&self) -> (copy: Self) {
        *self
    }

    fn same(&self, other: &Self) -> (equal: bool) {
        *self == *other
    }
}

/// How a rule recognises the text it replaces: `Word` without regard to case, `Exact` with it.
#[derive(Clone, Copy, Debug, PartialEq, Eq, Structural)]
pub enum LexiconMatch {
    Word,
    Exact,
}

impl DeepView for LexiconMatch {
    type V = LexiconMatch;

    open spec fn deep_view(&self) -> LexiconMatch {
        *self
    }
}

impl Model for LexiconMatch {
    fn duplicate(&self) -> (copy: Self) {
        *self
    }

    fn same(&self, other: &Self) -> (equal: bool) {
        *self == *other
    }
}

/// One pronunciation rule.
/// 
/// `replacement` is ordinary text, not a phoneme alphabet.
#[derive(Clone, Debug, PartialEq, Eq)]
pub struct LexiconEntry {
    pub id: String,
    pub scope: LexiconScope,
    /// Required for `Character` scope and rejected for every other scope.
    pub character_id: Option<String>,
    pub match_text: String,
    pub replacement: String,
    pub matching: LexiconMatch,
    pub notes: Option<String>,
    pub created_at: String,
}

/// What a [`LexiconEntry`] holds, as mathematical values.
pub struct LexiconEntryModel {
    pub id: Seq<char>,
    pub scope: LexiconScope,
    pub character_id: Option<Seq<char>>,
    pub match_text: Seq<char>,
    pub replacement: Seq<char>,
    pub matching: LexiconMatch,
    pub notes: Option<Seq<char>>,
    pub created_at: Seq<char>,
}

impl DeepView for LexiconEntry {
    type V = LexiconEntryModel;

    open spec fn deep_view(&self) -> LexiconEntryModel {
        LexiconEntryModel {
            id: self.id.deep_view(),
            scope: self.scope.deep_view(),
            character_id: self.character_id.deep_view(),
            match_text: self.match_text.deep_view(),
            replacement: self.replacement.deep_view(),
            matching: self.matching.deep_view(),
            notes: self.notes.deep_view(),
            created_at: self.created_at.deep_view(),
        }
    }
}

impl Model for LexiconEntry {
    fn duplicate(&self) -> (copy: Self) {
        LexiconEntry {
            id: self.id.duplicate(),
            scope: self.scope.duplicate(),
            character_id: self.character_id.duplicate(),
            match_text: self.match_text.duplicate(),
            replacement: self.replacement.duplicate(),
            matching: self.matching.duplicate(),
            notes: self.notes.duplicate(),
            created_at: self.created_at.duplicate(),
        }
    }

    fn same(&self, other: &Self) -> (equal: bool) {
        self.id.same(&other.id)
            && self.scope.same(&other.scope)
            && self.character_id.same(&other.character_id)
            && self.match_text.same(&other.match_text)
            && self.replacement.same(&other.replacement)
            && self.matching.same(&other.matching)
            && self.notes.same(&other.notes)
            && self.created_at.same(&other.created_at)
    }
}

impl Named for LexiconEntry {
    open spec fn name_of(model: LexiconEntryModel) -> Seq<char> {
        model.id
    }

    fn name(&self) -> (name: &String) {
        &self.id
    }
}

/// What a music cue is for.
#[derive(Clone, Copy, Debug, PartialEq, Eq, Structural)]
pub enum CueRole {
    Bed,
    Sting,
    Outro,
}

impl DeepView for CueRole {
    type V = CueRole;

    open spec fn deep_view(&self) -> CueRole {
        *self
    }
}

impl Model for CueRole {
    fn duplicate(&self) -> (copy: Self) {
        *self
    }

    fn same(&self, other: &Self) -> (equal: bool) {
        *self == *other
    }
}

/// Where a music cue begins.
#[derive(Clone, Debug, PartialEq, Eq)]
pub enum CueAnchor {
    Scene { scene_id: String },
    Turn { turn_id: String },
    AfterFinalTurn,
}

/// What a [`CueAnchor`] holds, as mathematical values.
pub enum CueAnchorModel {
    Scene { scene_id: Seq<char> },
    Turn { turn_id: Seq<char> },
    AfterFinalTurn,
}

impl DeepView for CueAnchor {
    type V = CueAnchorModel;

    open spec fn deep_view(&self) -> CueAnchorModel {
        match self {
            CueAnchor::Scene { scene_id } => CueAnchorModel::Scene { scene_id: scene_id@ },
            CueAnchor::Turn { turn_id } => CueAnchorModel::Turn { turn_id: turn_id@ },
            CueAnchor::AfterFinalTurn => CueAnchorModel::AfterFinalTurn,
        }
    }
}

impl Model for CueAnchor {
    fn duplicate(&self) -> (copy: Self) {
        match self {
            CueAnchor::Scene { scene_id } => CueAnchor::Scene { scene_id: scene_id.duplicate() },
            CueAnchor::Turn { turn_id } => CueAnchor::Turn { turn_id: turn_id.duplicate() },
            CueAnchor::AfterFinalTurn => CueAnchor::AfterFinalTurn,
        }
    }

    fn same(&self, other: &Self) -> (equal: bool) {
        match (self, other) {
            (CueAnchor::Scene { scene_id: left }, CueAnchor::Scene { scene_id: right }) => left.same(right),
            (CueAnchor::Turn { turn_id: left }, CueAnchor::Turn { turn_id: right }) => left.same(right),
            (CueAnchor::AfterFinalTurn, CueAnchor::AfterFinalTurn) => true,
            _ => false,
        }
    }
}

/// One planned or placed piece of music.
#[derive(Clone, Debug, PartialEq, Eq)]
pub struct MusicCue {
    pub id: String,
    pub role: CueRole,
    pub anchor: CueAnchor,
    pub target_duration_us: Microseconds,
    pub direction: String,
    pub source_asset_id: Option<String>,
    pub track_id: Option<String>,
    pub gain_db_milli: i32,
    pub fade_in_us: Microseconds,
    pub fade_out_us: Microseconds,
    pub created_at: String,
}

/// What a [`MusicCue`] holds, as mathematical values.
pub struct MusicCueModel {
    pub id: Seq<char>,
    pub role: CueRole,
    pub anchor: CueAnchorModel,
    pub target_duration_us: Microseconds,
    pub direction: Seq<char>,
    pub source_asset_id: Option<Seq<char>>,
    pub track_id: Option<Seq<char>>,
    pub gain_db_milli: i32,
    pub fade_in_us: Microseconds,
    pub fade_out_us: Microseconds,
    pub created_at: Seq<char>,
}

impl DeepView for MusicCue {
    type V = MusicCueModel;

    open spec fn deep_view(&self) -> MusicCueModel {
        MusicCueModel {
            id: self.id.deep_view(),
            role: self.role.deep_view(),
            anchor: self.anchor.deep_view(),
            target_duration_us: self.target_duration_us.deep_view(),
            direction: self.direction.deep_view(),
            source_asset_id: self.source_asset_id.deep_view(),
            track_id: self.track_id.deep_view(),
            gain_db_milli: self.gain_db_milli.deep_view(),
            fade_in_us: self.fade_in_us.deep_view(),
            fade_out_us: self.fade_out_us.deep_view(),
            created_at: self.created_at.deep_view(),
        }
    }
}

impl Model for MusicCue {
    fn duplicate(&self) -> (copy: Self) {
        MusicCue {
            id: self.id.duplicate(),
            role: self.role.duplicate(),
            anchor: self.anchor.duplicate(),
            target_duration_us: self.target_duration_us.duplicate(),
            direction: self.direction.duplicate(),
            source_asset_id: self.source_asset_id.duplicate(),
            track_id: self.track_id.duplicate(),
            gain_db_milli: self.gain_db_milli.duplicate(),
            fade_in_us: self.fade_in_us.duplicate(),
            fade_out_us: self.fade_out_us.duplicate(),
            created_at: self.created_at.duplicate(),
        }
    }

    fn same(&self, other: &Self) -> (equal: bool) {
        self.id.same(&other.id)
            && self.role.same(&other.role)
            && self.anchor.same(&other.anchor)
            && self.target_duration_us.same(&other.target_duration_us)
            && self.direction.same(&other.direction)
            && self.source_asset_id.same(&other.source_asset_id)
            && self.track_id.same(&other.track_id)
            && self.gain_db_milli.same(&other.gain_db_milli)
            && self.fade_in_us.same(&other.fade_in_us)
            && self.fade_out_us.same(&other.fade_out_us)
            && self.created_at.same(&other.created_at)
    }
}

impl Named for MusicCue {
    open spec fn name_of(model: MusicCueModel) -> Seq<char> {
        model.id
    }

    fn name(&self) -> (name: &String) {
        &self.id
    }
}

/// Imported media labelled for sound design.
#[derive(Clone, Debug, PartialEq, Eq)]
pub struct SoundAsset {
    pub id: String,
    pub name: String,
    pub source_asset_id: String,
    pub tags: Vec<String>,
    pub created_at: String,
}

/// What a [`SoundAsset`] holds, as mathematical values.
pub struct SoundAssetModel {
    pub id: Seq<char>,
    pub name: Seq<char>,
    pub source_asset_id: Seq<char>,
    pub tags: Seq<Seq<char>>,
    pub created_at: Seq<char>,
}

impl DeepView for SoundAsset {
    type V = SoundAssetModel;

    open spec fn deep_view(&self) -> SoundAssetModel {
        SoundAssetModel {
            id: self.id.deep_view(),
            name: self.name.deep_view(),
            source_asset_id: self.source_asset_id.deep_view(),
            tags: self.tags.deep_view(),
            created_at: self.created_at.deep_view(),
        }
    }
}

impl Model for SoundAsset {
    fn duplicate(&self) -> (copy: Self) {
        SoundAsset {
            id: self.id.duplicate(),
            name: self.name.duplicate(),
            source_asset_id: self.source_asset_id.duplicate(),
            tags: self.tags.duplicate(),
            created_at: self.created_at.duplicate(),
        }
    }

    fn same(&self, other: &Self) -> (equal: bool) {
        self.id.same(&other.id)
            && self.name.same(&other.name)
            && self.source_asset_id.same(&other.source_asset_id)
            && self.tags.same(&other.tags)
            && self.created_at.same(&other.created_at)
    }
}

impl Named for SoundAsset {
    open spec fn name_of(model: SoundAssetModel) -> Seq<char> {
        model.id
    }

    fn name(&self) -> (name: &String) {
        &self.id
    }
}

/// What a sound placement is for.
#[derive(Clone, Copy, Debug, PartialEq, Eq, Structural)]
pub enum SoundPlacementKind {
    RoomTone,
    Effect,
}

impl DeepView for SoundPlacementKind {
    type V = SoundPlacementKind;

    open spec fn deep_view(&self) -> SoundPlacementKind {
        *self
    }
}

impl Model for SoundPlacementKind {
    fn duplicate(&self) -> (copy: Self) {
        *self
    }

    fn same(&self, other: &Self) -> (equal: bool) {
        *self == *other
    }
}

/// One sound-design placement on the timeline.
#[derive(Clone, Debug, PartialEq, Eq)]
pub struct SoundLayer {
    pub id: String,
    pub asset_id: String,
    pub kind: SoundPlacementKind,
    pub scene_id: Option<String>,
    pub turn_id: Option<String>,
    pub range: TimeRange,
    pub gain_db_milli: i32,
    pub fade_in_us: Microseconds,
    pub fade_out_us: Microseconds,
    pub loop_to_fill: bool,
    pub duck_under_speech: bool,
}

/// What a [`SoundLayer`] holds, as mathematical values.
pub struct SoundLayerModel {
    pub id: Seq<char>,
    pub asset_id: Seq<char>,
    pub kind: SoundPlacementKind,
    pub scene_id: Option<Seq<char>>,
    pub turn_id: Option<Seq<char>>,
    pub range: TimeRange,
    pub gain_db_milli: i32,
    pub fade_in_us: Microseconds,
    pub fade_out_us: Microseconds,
    pub loop_to_fill: bool,
    pub duck_under_speech: bool,
}

impl DeepView for SoundLayer {
    type V = SoundLayerModel;

    open spec fn deep_view(&self) -> SoundLayerModel {
        SoundLayerModel {
            id: self.id.deep_view(),
            asset_id: self.asset_id.deep_view(),
            kind: self.kind.deep_view(),
            scene_id: self.scene_id.deep_view(),
            turn_id: self.turn_id.deep_view(),
            range: self.range.deep_view(),
            gain_db_milli: self.gain_db_milli.deep_view(),
            fade_in_us: self.fade_in_us.deep_view(),
            fade_out_us: self.fade_out_us.deep_view(),
            loop_to_fill: self.loop_to_fill.deep_view(),
            duck_under_speech: self.duck_under_speech.deep_view(),
        }
    }
}

impl Model for SoundLayer {
    fn duplicate(&self) -> (copy: Self) {
        SoundLayer {
            id: self.id.duplicate(),
            asset_id: self.asset_id.duplicate(),
            kind: self.kind.duplicate(),
            scene_id: self.scene_id.duplicate(),
            turn_id: self.turn_id.duplicate(),
            range: self.range.duplicate(),
            gain_db_milli: self.gain_db_milli.duplicate(),
            fade_in_us: self.fade_in_us.duplicate(),
            fade_out_us: self.fade_out_us.duplicate(),
            loop_to_fill: self.loop_to_fill.duplicate(),
            duck_under_speech: self.duck_under_speech.duplicate(),
        }
    }

    fn same(&self, other: &Self) -> (equal: bool) {
        self.id.same(&other.id)
            && self.asset_id.same(&other.asset_id)
            && self.kind.same(&other.kind)
            && self.scene_id.same(&other.scene_id)
            && self.turn_id.same(&other.turn_id)
            && self.range.same(&other.range)
            && self.gain_db_milli.same(&other.gain_db_milli)
            && self.fade_in_us.same(&other.fade_in_us)
            && self.fade_out_us.same(&other.fade_out_us)
            && self.loop_to_fill.same(&other.loop_to_fill)
            && self.duck_under_speech.same(&other.duck_under_speech)
    }
}

impl Named for SoundLayer {
    open spec fn name_of(model: SoundLayerModel) -> Seq<char> {
        model.id
    }

    fn name(&self) -> (name: &String) {
        &self.id
    }
}

/// How a visual fills its bounds.
#[derive(Clone, Copy, Debug, PartialEq, Eq, Structural)]
pub enum VisualFit {
    Stretch,
    Cover,
    Contain,
}

impl DeepView for VisualFit {
    type V = VisualFit;

    open spec fn deep_view(&self) -> VisualFit {
        *self
    }
}

impl Model for VisualFit {
    fn duplicate(&self) -> (copy: Self) {
        *self
    }

    fn same(&self, other: &Self) -> (equal: bool) {
        *self == *other
    }
}

/// How a visual moves between its bounds.
#[derive(Clone, Copy, Debug, PartialEq, Eq, Structural)]
pub enum VisualEasing {
    Linear,
    EaseInOut,
}

impl DeepView for VisualEasing {
    type V = VisualEasing;

    open spec fn deep_view(&self) -> VisualEasing {
        *self
    }
}

impl Model for VisualEasing {
    fn duplicate(&self) -> (copy: Self) {
        *self
    }

    fn same(&self, other: &Self) -> (equal: bool) {
        *self == *other
    }
}

/// Where a visual starts and ends, and how it gets there.
#[derive(Clone, Copy, Debug, PartialEq, Eq, Structural)]
pub struct VisualMotion {
    pub start_bounds: NormalizedRect,
    pub end_bounds: NormalizedRect,
    pub start_opacity_milli: u16,
    pub end_opacity_milli: u16,
    pub start_rotation_milli_degrees: i32,
    pub end_rotation_milli_degrees: i32,
    pub easing: VisualEasing,
}

impl DeepView for VisualMotion {
    type V = VisualMotion;

    open spec fn deep_view(&self) -> VisualMotion {
        *self
    }
}

impl Model for VisualMotion {
    fn duplicate(&self) -> (copy: Self) {
        *self
    }

    fn same(&self, other: &Self) -> (equal: bool) {
        *self == *other
    }
}

/// The image format of a managed visual.
#[derive(Clone, Copy, Debug, PartialEq, Eq, Structural)]
pub enum VisualMimeType {
    Png,
    Jpeg,
    Webp,
}

impl DeepView for VisualMimeType {
    type V = VisualMimeType;

    open spec fn deep_view(&self) -> VisualMimeType {
        *self
    }
}

impl Model for VisualMimeType {
    fn duplicate(&self) -> (copy: Self) {
        *self
    }

    fn same(&self, other: &Self) -> (equal: bool) {
        *self == *other
    }
}

/// One managed still image.
#[derive(Clone, Debug, PartialEq, Eq)]
pub struct VisualAsset {
    pub id: String,
    pub managed_path: String,
    pub sha256: String,
    pub mime_type: VisualMimeType,
    pub width: u32,
    pub height: u32,
    pub has_alpha: bool,
    pub size_bytes: u64,
    pub provenance: Provenance,
    pub created_at: String,
}

/// What a [`VisualAsset`] holds, as mathematical values.
pub struct VisualAssetModel {
    pub id: Seq<char>,
    pub managed_path: Seq<char>,
    pub sha256: Seq<char>,
    pub mime_type: VisualMimeType,
    pub width: u32,
    pub height: u32,
    pub has_alpha: bool,
    pub size_bytes: u64,
    pub provenance: ProvenanceModel,
    pub created_at: Seq<char>,
}

impl DeepView for VisualAsset {
    type V = VisualAssetModel;

    open spec fn deep_view(&self) -> VisualAssetModel {
        VisualAssetModel {
            id: self.id.deep_view(),
            managed_path: self.managed_path.deep_view(),
            sha256: self.sha256.deep_view(),
            mime_type: self.mime_type.deep_view(),
            width: self.width.deep_view(),
            height: self.height.deep_view(),
            has_alpha: self.has_alpha.deep_view(),
            size_bytes: self.size_bytes.deep_view(),
            provenance: self.provenance.deep_view(),
            created_at: self.created_at.deep_view(),
        }
    }
}

impl Model for VisualAsset {
    fn duplicate(&self) -> (copy: Self) {
        VisualAsset {
            id: self.id.duplicate(),
            managed_path: self.managed_path.duplicate(),
            sha256: self.sha256.duplicate(),
            mime_type: self.mime_type.duplicate(),
            width: self.width.duplicate(),
            height: self.height.duplicate(),
            has_alpha: self.has_alpha.duplicate(),
            size_bytes: self.size_bytes.duplicate(),
            provenance: self.provenance.duplicate(),
            created_at: self.created_at.duplicate(),
        }
    }

    fn same(&self, other: &Self) -> (equal: bool) {
        self.id.same(&other.id)
            && self.managed_path.same(&other.managed_path)
            && self.sha256.same(&other.sha256)
            && self.mime_type.same(&other.mime_type)
            && self.width.same(&other.width)
            && self.height.same(&other.height)
            && self.has_alpha.same(&other.has_alpha)
            && self.size_bytes.same(&other.size_bytes)
            && self.provenance.same(&other.provenance)
            && self.created_at.same(&other.created_at)
    }
}

impl Named for VisualAsset {
    open spec fn name_of(model: VisualAssetModel) -> Seq<char> {
        model.id
    }

    fn name(&self) -> (name: &String) {
        &self.id
    }
}

/// One managed visual on the timeline.
#[derive(Clone, Debug, PartialEq, Eq)]
pub struct VisualLayer {
    pub id: String,
    pub asset_id: String,
    pub scene_id: Option<String>,
    pub range: TimeRange,
    pub fit: VisualFit,
    pub crop: Option<NormalizedRect>,
    pub z_index: i16,
    pub motion: VisualMotion,
    pub transition_in_us: Microseconds,
    pub transition_out_us: Microseconds,
}

/// What a [`VisualLayer`] holds, as mathematical values.
pub struct VisualLayerModel {
    pub id: Seq<char>,
    pub asset_id: Seq<char>,
    pub scene_id: Option<Seq<char>>,
    pub range: TimeRange,
    pub fit: VisualFit,
    pub crop: Option<NormalizedRect>,
    pub z_index: i16,
    pub motion: VisualMotion,
    pub transition_in_us: Microseconds,
    pub transition_out_us: Microseconds,
}

impl DeepView for VisualLayer {
    type V = VisualLayerModel;

    open spec fn deep_view(&self) -> VisualLayerModel {
        VisualLayerModel {
            id: self.id.deep_view(),
            asset_id: self.asset_id.deep_view(),
            scene_id: self.scene_id.deep_view(),
            range: self.range.deep_view(),
            fit: self.fit.deep_view(),
            crop: self.crop.deep_view(),
            z_index: self.z_index.deep_view(),
            motion: self.motion.deep_view(),
            transition_in_us: self.transition_in_us.deep_view(),
            transition_out_us: self.transition_out_us.deep_view(),
        }
    }
}

impl Model for VisualLayer {
    fn duplicate(&self) -> (copy: Self) {
        VisualLayer {
            id: self.id.duplicate(),
            asset_id: self.asset_id.duplicate(),
            scene_id: self.scene_id.duplicate(),
            range: self.range.duplicate(),
            fit: self.fit.duplicate(),
            crop: self.crop.duplicate(),
            z_index: self.z_index.duplicate(),
            motion: self.motion.duplicate(),
            transition_in_us: self.transition_in_us.duplicate(),
            transition_out_us: self.transition_out_us.duplicate(),
        }
    }

    fn same(&self, other: &Self) -> (equal: bool) {
        self.id.same(&other.id)
            && self.asset_id.same(&other.asset_id)
            && self.scene_id.same(&other.scene_id)
            && self.range.same(&other.range)
            && self.fit.same(&other.fit)
            && self.crop.same(&other.crop)
            && self.z_index.same(&other.z_index)
            && self.motion.same(&other.motion)
            && self.transition_in_us.same(&other.transition_in_us)
            && self.transition_out_us.same(&other.transition_out_us)
    }
}

impl Named for VisualLayer {
    open spec fn name_of(model: VisualLayerModel) -> Seq<char> {
        model.id
    }

    fn name(&self) -> (name: &String) {
        &self.id
    }
}

/// How long an episode is meant to run, and the slack either side in basis points of it.
#[derive(Clone, Copy, Debug, PartialEq, Eq, Structural)]
pub struct LengthTarget {
    pub target_us: Microseconds,
    pub tolerance_bp: u32,
}

impl DeepView for LengthTarget {
    type V = LengthTarget;

    open spec fn deep_view(&self) -> LengthTarget {
        *self
    }
}

impl Model for LengthTarget {
    fn duplicate(&self) -> (copy: Self) {
        *self
    }

    fn same(&self, other: &Self) -> (equal: bool) {
        *self == *other
    }
}

/// Where an episode's inherited values came from.
/// 
/// This is provenance, not a live link. Nothing reads back through it at render time.
#[derive(Clone, Debug, PartialEq, Eq)]
pub struct FormatOrigin {
    pub format_id: String,
    pub format_name: String,
    pub format_revision: u32,
    pub instantiated_at: String,
}

/// What a [`FormatOrigin`] holds, as mathematical values.
pub struct FormatOriginModel {
    pub format_id: Seq<char>,
    pub format_name: Seq<char>,
    pub format_revision: u32,
    pub instantiated_at: Seq<char>,
}

impl DeepView for FormatOrigin {
    type V = FormatOriginModel;

    open spec fn deep_view(&self) -> FormatOriginModel {
        FormatOriginModel {
            format_id: self.format_id.deep_view(),
            format_name: self.format_name.deep_view(),
            format_revision: self.format_revision.deep_view(),
            instantiated_at: self.instantiated_at.deep_view(),
        }
    }
}

impl Model for FormatOrigin {
    fn duplicate(&self) -> (copy: Self) {
        FormatOrigin {
            format_id: self.format_id.duplicate(),
            format_name: self.format_name.duplicate(),
            format_revision: self.format_revision.duplicate(),
            instantiated_at: self.instantiated_at.duplicate(),
        }
    }

    fn same(&self, other: &Self) -> (equal: bool) {
        self.format_id.same(&other.format_id)
            && self.format_name.same(&other.format_name)
            && self.format_revision.same(&other.format_revision)
            && self.instantiated_at.same(&other.instantiated_at)
    }
}

/// The canonical document of one video project.
#[derive(Clone, Debug, PartialEq, Eq)]
pub struct VideoProjectManifest {
    pub schema_version: u32,
    pub project_id: String,
    pub name: String,
    pub revision: u64,
    pub frame_rate: RationalFrameRate,
    pub timeline_duration_us: Microseconds,
    pub source_assets: Vec<SourceAsset>,
    pub rights_confirmations: Vec<RightsConfirmation>,
    pub transcript: Option<TranscriptVersion>,
    pub candidates: Vec<ClipCandidate>,
    pub reviewed_scenes: Vec<ReviewedScene>,
    pub tracks: Vec<TimelineTrack>,
    pub gaps: Vec<TimelineGap>,
    pub captions: Vec<CaptionCue>,
    pub layout: LayoutPlan,
    pub audio_mix: AudioMix,
    pub cast: Vec<CastMember>,
    pub dialogue: Vec<DialogueTurn>,
    pub turn_beats: Vec<TurnBeat>,
    pub lexicon: Vec<LexiconEntry>,
    pub music_cues: Vec<MusicCue>,
    pub sound_assets: Vec<SoundAsset>,
    pub sound_layers: Vec<SoundLayer>,
    pub visual_assets: Vec<VisualAsset>,
    pub visual_layers: Vec<VisualLayer>,
    pub length_target: Option<LengthTarget>,
    pub format_origin: Option<FormatOrigin>,
    pub narration_bindings: Vec<NarrationBinding>,
    pub render_artifacts: Vec<RenderArtifact>,
    pub revision_history: Vec<RevisionRecord>,
    pub created_at: String,
    pub updated_at: String,
}

/// What a [`VideoProjectManifest`] holds, as mathematical values.
pub struct VideoProjectManifestModel {
    pub schema_version: u32,
    pub project_id: Seq<char>,
    pub name: Seq<char>,
    pub revision: u64,
    pub frame_rate: RationalFrameRate,
    pub timeline_duration_us: Microseconds,
    pub source_assets: Seq<SourceAssetModel>,
    pub rights_confirmations: Seq<RightsConfirmationModel>,
    pub transcript: Option<TranscriptVersionModel>,
    pub candidates: Seq<ClipCandidateModel>,
    pub reviewed_scenes: Seq<ReviewedSceneModel>,
    pub tracks: Seq<TimelineTrackModel>,
    pub gaps: Seq<TimelineGapModel>,
    pub captions: Seq<CaptionCueModel>,
    pub layout: LayoutPlanModel,
    pub audio_mix: AudioMixModel,
    pub cast: Seq<CastMemberModel>,
    pub dialogue: Seq<DialogueTurnModel>,
    pub turn_beats: Seq<TurnBeatModel>,
    pub lexicon: Seq<LexiconEntryModel>,
    pub music_cues: Seq<MusicCueModel>,
    pub sound_assets: Seq<SoundAssetModel>,
    pub sound_layers: Seq<SoundLayerModel>,
    pub visual_assets: Seq<VisualAssetModel>,
    pub visual_layers: Seq<VisualLayerModel>,
    pub length_target: Option<LengthTarget>,
    pub format_origin: Option<FormatOriginModel>,
    pub narration_bindings: Seq<NarrationBindingModel>,
    pub render_artifacts: Seq<RenderArtifactModel>,
    pub revision_history: Seq<RevisionRecordModel>,
    pub created_at: Seq<char>,
    pub updated_at: Seq<char>,
}

impl DeepView for VideoProjectManifest {
    type V = VideoProjectManifestModel;

    open spec fn deep_view(&self) -> VideoProjectManifestModel {
        VideoProjectManifestModel {
            schema_version: self.schema_version.deep_view(),
            project_id: self.project_id.deep_view(),
            name: self.name.deep_view(),
            revision: self.revision.deep_view(),
            frame_rate: self.frame_rate.deep_view(),
            timeline_duration_us: self.timeline_duration_us.deep_view(),
            source_assets: self.source_assets.deep_view(),
            rights_confirmations: self.rights_confirmations.deep_view(),
            transcript: self.transcript.deep_view(),
            candidates: self.candidates.deep_view(),
            reviewed_scenes: self.reviewed_scenes.deep_view(),
            tracks: self.tracks.deep_view(),
            gaps: self.gaps.deep_view(),
            captions: self.captions.deep_view(),
            layout: self.layout.deep_view(),
            audio_mix: self.audio_mix.deep_view(),
            cast: self.cast.deep_view(),
            dialogue: self.dialogue.deep_view(),
            turn_beats: self.turn_beats.deep_view(),
            lexicon: self.lexicon.deep_view(),
            music_cues: self.music_cues.deep_view(),
            sound_assets: self.sound_assets.deep_view(),
            sound_layers: self.sound_layers.deep_view(),
            visual_assets: self.visual_assets.deep_view(),
            visual_layers: self.visual_layers.deep_view(),
            length_target: self.length_target.deep_view(),
            format_origin: self.format_origin.deep_view(),
            narration_bindings: self.narration_bindings.deep_view(),
            render_artifacts: self.render_artifacts.deep_view(),
            revision_history: self.revision_history.deep_view(),
            created_at: self.created_at.deep_view(),
            updated_at: self.updated_at.deep_view(),
        }
    }
}

impl Model for VideoProjectManifest {
    fn duplicate(&self) -> (copy: Self) {
        VideoProjectManifest {
            schema_version: self.schema_version.duplicate(),
            project_id: self.project_id.duplicate(),
            name: self.name.duplicate(),
            revision: self.revision.duplicate(),
            frame_rate: self.frame_rate.duplicate(),
            timeline_duration_us: self.timeline_duration_us.duplicate(),
            source_assets: self.source_assets.duplicate(),
            rights_confirmations: self.rights_confirmations.duplicate(),
            transcript: self.transcript.duplicate(),
            candidates: self.candidates.duplicate(),
            reviewed_scenes: self.reviewed_scenes.duplicate(),
            tracks: self.tracks.duplicate(),
            gaps: self.gaps.duplicate(),
            captions: self.captions.duplicate(),
            layout: self.layout.duplicate(),
            audio_mix: self.audio_mix.duplicate(),
            cast: self.cast.duplicate(),
            dialogue: self.dialogue.duplicate(),
            turn_beats: self.turn_beats.duplicate(),
            lexicon: self.lexicon.duplicate(),
            music_cues: self.music_cues.duplicate(),
            sound_assets: self.sound_assets.duplicate(),
            sound_layers: self.sound_layers.duplicate(),
            visual_assets: self.visual_assets.duplicate(),
            visual_layers: self.visual_layers.duplicate(),
            length_target: self.length_target.duplicate(),
            format_origin: self.format_origin.duplicate(),
            narration_bindings: self.narration_bindings.duplicate(),
            render_artifacts: self.render_artifacts.duplicate(),
            revision_history: self.revision_history.duplicate(),
            created_at: self.created_at.duplicate(),
            updated_at: self.updated_at.duplicate(),
        }
    }

    fn same(&self, other: &Self) -> (equal: bool) {
        self.schema_version.same(&other.schema_version)
            && self.project_id.same(&other.project_id)
            && self.name.same(&other.name)
            && self.revision.same(&other.revision)
            && self.frame_rate.same(&other.frame_rate)
            && self.timeline_duration_us.same(&other.timeline_duration_us)
            && self.source_assets.same(&other.source_assets)
            && self.rights_confirmations.same(&other.rights_confirmations)
            && self.transcript.same(&other.transcript)
            && self.candidates.same(&other.candidates)
            && self.reviewed_scenes.same(&other.reviewed_scenes)
            && self.tracks.same(&other.tracks)
            && self.gaps.same(&other.gaps)
            && self.captions.same(&other.captions)
            && self.layout.same(&other.layout)
            && self.audio_mix.same(&other.audio_mix)
            && self.cast.same(&other.cast)
            && self.dialogue.same(&other.dialogue)
            && self.turn_beats.same(&other.turn_beats)
            && self.lexicon.same(&other.lexicon)
            && self.music_cues.same(&other.music_cues)
            && self.sound_assets.same(&other.sound_assets)
            && self.sound_layers.same(&other.sound_layers)
            && self.visual_assets.same(&other.visual_assets)
            && self.visual_layers.same(&other.visual_layers)
            && self.length_target.same(&other.length_target)
            && self.format_origin.same(&other.format_origin)
            && self.narration_bindings.same(&other.narration_bindings)
            && self.render_artifacts.same(&other.render_artifacts)
            && self.revision_history.same(&other.revision_history)
            && self.created_at.same(&other.created_at)
            && self.updated_at.same(&other.updated_at)
    }
}

} // verus!
