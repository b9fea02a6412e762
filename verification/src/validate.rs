//! The rules that each part of a project obeys by itself.

use crate::digest::{sha256_hex, sha256_hex_text};
use crate::error::{fault, fault_at, or_else, refusal, refuse, unless, Fault, VideoError, VideoErrorCode, VideoResult};
use crate::manifest::{
    AudioMix, AudioMixModel, AudioMixTrack, AudioMixTrackModel, CanvasSpec, CaptionCue, CaptionCueModel, ClipCandidate,
    ClipCandidateModel, GapReason, LayoutElement, LayoutElementModel, LayoutPlan, LayoutPlanModel, MediaProbe,
    MediaProbeModel, MediaReference, MediaReferenceModel, NarrationBinding, NarrationBindingModel, NormalizedRect,
    RenderArtifact, RenderArtifactModel, ReviewedScene, ReviewedSceneModel, RevisionRecord, RevisionRecordModel,
    RightsConfirmation, RightsConfirmationModel, SourceAsset, SourceAssetKind, SourceAssetModel, TimelineClip,
    TimelineClipModel, TimelineGap, TimelineGapModel, TranscriptSegment, TranscriptSegmentModel, TranscriptVersion,
    TranscriptVersionModel, TranscriptWord, TranscriptWordModel,
};
use crate::model::{collect_names, names};
use crate::rules::{
    duplicate_fault, duplicate_id_error, identifier_fault, language_fault, managed_path_fault, nonempty_fault,
    optional_identifier_fault, sha256_fault, timestamp_fault, unique_fault, validate_identifier,
    validate_language_tag, validate_managed_path, validate_nonempty, validate_optional_identifier,
    validate_range_within, validate_sha256, validate_timestamp_text, validate_unique_ids, within_fault,
};
use crate::text::{ascii_lowercase, blank, byte_len, bytes_in, is_blank, text_concat, text_eq, trimmed};
use crate::time::{addition_fault, on_clock, range_fault, Microseconds, RationalFrameRate, RationalRate, TimeRange, Validate};
use vstd::hash_set::StringHashSet;
use vstd::prelude::*;
use vstd::utf8::encode_utf8;

verus! {

pub const NORMALIZED_BASIS_POINTS: i32 = 10_000;

pub const MAX_SOURCE_DURATION_US: i64 = 21_600_000_000;

pub const MAX_TIMELINE_DURATION_US: i64 = 21_600_000_000;

impl Validate for RightsConfirmation {
    open spec fn fault_of(model: RightsConfirmationModel) -> Option<Fault> {
        or_else(
            identifier_fault(model.id, "rights.id"@),
            or_else(
                nonempty_fault(model.source_uri, "rights.source_uri"@, 4_096),
                or_else(
                    sha256_fault(
                        model.source_uri_sha256,
                        "rights.source_uri_sha256"@,
                        VideoErrorCode::InvalidRightsConfirmation,
                    ),
                    or_else(
                        unless(
                            model.source_uri_sha256 == sha256_hex(encode_utf8(model.source_uri)),
                            fault_at(
                                VideoErrorCode::InvalidRightsConfirmation,
                                "source_uri_sha256 does not match the exact confirmed source URI"@,
                                "rights.source_uri_sha256"@,
                            ),
                        ),
                        or_else(
                            nonempty_fault(model.confirmation_text, "rights.confirmation_text"@, 4_096),
                            or_else(
                                nonempty_fault(model.confirmed_by, "rights.confirmed_by"@, 256),
                                or_else(
                                    timestamp_fault(model.confirmed_at, "rights.confirmed_at"@),
                                    unless(
                                        model.single_source_only,
                                        fault_at(
                                            VideoErrorCode::InvalidRightsConfirmation,
                                            "rights confirmations must be scoped to exactly one source"@,
                                            "rights.single_source_only"@,
                                        ),
                                    ),
                                ),
                            ),
                        ),
                    ),
                ),
            ),
        )
    }

    fn validate(&self) -> (result: VideoResult<()>) {
        validate_identifier(self.id.as_str(), "rights.id")?;
        validate_nonempty(self.source_uri.as_str(), "rights.source_uri", 4_096)?;
        validate_sha256(
            self.source_uri_sha256.as_str(),
            "rights.source_uri_sha256",
            VideoErrorCode::InvalidRightsConfirmation,
        )?;
        let digest: String = sha256_hex_text(self.source_uri.as_str().as_bytes());
        if self.source_uri_sha256 != digest {
            return Err(
                refuse(
                    VideoErrorCode::InvalidRightsConfirmation,
                    "source_uri_sha256 does not match the exact confirmed source URI",
                    "rights.source_uri_sha256",
                ),
            );
        }
        validate_nonempty(self.confirmation_text.as_str(), "rights.confirmation_text", 4_096)?;
        validate_nonempty(self.confirmed_by.as_str(), "rights.confirmed_by", 256)?;
        validate_timestamp_text(self.confirmed_at.as_str(), "rights.confirmed_at")?;
        if !self.single_source_only {
            return Err(
                refuse(
                    VideoErrorCode::InvalidRightsConfirmation,
                    "rights confirmations must be scoped to exactly one source",
                    "rights.single_source_only",
                ),
            );
        }
        Ok(())
    }
}

/// Whether a probe's dimensions agree with whether it found video.
pub open spec fn dimensions_agree(model: MediaProbeModel) -> bool {
    match (model.width, model.height) {
        (Some(width), Some(height)) => model.has_video && width > 0 && height > 0,
        (None, None) => !model.has_video,
        _ => false,
    }
}

pub open spec fn frame_rate_fault(rate: Option<RationalFrameRate>) -> Option<Fault> {
    match rate {
        Some(rate) => RationalFrameRate::fault_of(rate),
        None => None,
    }
}

impl Validate for MediaProbe {
    open spec fn fault_of(model: MediaProbeModel) -> Option<Fault> {
        or_else(
            unless(
                1 <= model.duration_us.0 <= MAX_SOURCE_DURATION_US,
                fault_at(
                    VideoErrorCode::InvalidAsset,
                    "media duration must be positive and no greater than 6 hours"@,
                    "media.duration_us"@,
                ),
            ),
            or_else(
                unless(
                    model.has_video || model.has_audio,
                    fault(
                        VideoErrorCode::InvalidAsset,
                        "media must have at least one audio or video stream"@,
                    ),
                ),
                or_else(
                    unless(
                        dimensions_agree(model),
                        fault(
                            VideoErrorCode::InvalidAsset,
                            "video dimensions must both be present and positive"@,
                        ),
                    ),
                    or_else(
                        frame_rate_fault(model.frame_rate),
                        nonempty_fault(model.format_name, "media.format_name"@, 128),
                    ),
                ),
            ),
        )
    }

    fn validate(&self) -> (result: VideoResult<()>) {
        if self.duration_us.0 < 1 || self.duration_us.0 > MAX_SOURCE_DURATION_US {
            return Err(
                refuse(
                    VideoErrorCode::InvalidAsset,
                    "media duration must be positive and no greater than 6 hours",
                    "media.duration_us",
                ),
            );
        }
        if !self.has_video && !self.has_audio {
            return Err(
                VideoError::new(
                    VideoErrorCode::InvalidAsset,
                    "media must have at least one audio or video stream",
                ),
            );
        }
        let agree: bool = match (self.width, self.height) {
            (Some(width), Some(height)) => self.has_video && width > 0 && height > 0,
            (None, None) => !self.has_video,
            _ => false,
        };
        if !agree {
            return Err(
                VideoError::new(
                    VideoErrorCode::InvalidAsset,
                    "video dimensions must both be present and positive",
                ),
            );
        }
        if let Some(frame_rate) = self.frame_rate {
            frame_rate.validate()?;
        }
        validate_nonempty(self.format_name.as_str(), "media.format_name", 128)
    }
}

impl Validate for SourceAsset {
    open spec fn fault_of(model: SourceAssetModel) -> Option<Fault> {
        or_else(
            identifier_fault(model.id, "source_assets.id"@),
            or_else(
                managed_path_fault(model.managed_path, "source_assets.managed_path"@),
                or_else(
                    sha256_fault(model.sha256, "source_assets.sha256"@, VideoErrorCode::InvalidAsset),
                    or_else(
                        MediaProbe::fault_of(model.probe),
                        or_else(
                            timestamp_fault(model.provenance.imported_at, "provenance.imported_at"@),
                            or_else(
                                nonempty_fault(model.provenance.producer, "provenance.producer"@, 256),
                                or_else(
                                    unless(
                                        model.kind != SourceAssetKind::ImportedLink
                                            || model.rights_confirmation_id is Some,
                                        fault_at(
                                            VideoErrorCode::MissingRightsConfirmation,
                                            "an imported link requires a per-source rights confirmation"@,
                                            "source_assets.rights_confirmation_id"@,
                                        ),
                                    ),
                                    optional_identifier_fault(
                                        model.rights_confirmation_id,
                                        "source_assets.rights_confirmation_id"@,
                                    ),
                                ),
                            ),
                        ),
                    ),
                ),
            ),
        )
    }

    fn validate(&self) -> (result: VideoResult<()>) {
        validate_identifier(self.id.as_str(), "source_assets.id")?;
        validate_managed_path(self.managed_path.as_str(), "source_assets.managed_path")?;
        validate_sha256(self.sha256.as_str(), "source_assets.sha256", VideoErrorCode::InvalidAsset)?;
        self.probe.validate()?;
        validate_timestamp_text(self.provenance.imported_at.as_str(), "provenance.imported_at")?;
        validate_nonempty(self.provenance.producer.as_str(), "provenance.producer", 256)?;
        if self.kind == SourceAssetKind::ImportedLink && self.rights_confirmation_id.is_none() {
            return Err(
                refuse(
                    VideoErrorCode::MissingRightsConfirmation,
                    "an imported link requires a per-source rights confirmation",
                    "source_assets.rights_confirmation_id",
                ),
            );
        }
        validate_optional_identifier(&self.rights_confirmation_id, "source_assets.rights_confirmation_id")
    }
}

/// Something said on the source clock.
pub trait Timed: DeepView {
    spec fn timed(model: Self::V) -> TimedText;

    fn timed_id(&self) -> (id: &String)
        ensures
            id@ == Self::timed(self.deep_view()).id,
    ;

    fn timed_range(&self) -> (range: TimeRange)
        ensures
            range == Self::timed(self.deep_view()).range,
    ;

    fn timed_text(&self) -> (text: &String)
        ensures
            text@ == Self::timed(self.deep_view()).text,
    ;
}

/// An identifier, when it is said, and what is said.
pub struct TimedText {
    pub id: Seq<char>,
    pub range: TimeRange,
    pub text: Seq<char>,
}

impl Timed for TranscriptWord {
    open spec fn timed(model: TranscriptWordModel) -> TimedText {
        TimedText { id: model.id, range: model.range, text: model.text }
    }

    fn timed_id(&self) -> (id: &String) {
        &self.id
    }

    fn timed_range(&self) -> (range: TimeRange) {
        self.range
    }

    fn timed_text(&self) -> (text: &String) {
        &self.text
    }
}

impl Timed for TranscriptSegment {
    open spec fn timed(model: TranscriptSegmentModel) -> TimedText {
        TimedText { id: model.id, range: model.range, text: model.text }
    }

    fn timed_id(&self) -> (id: &String) {
        &self.id
    }

    fn timed_range(&self) -> (range: TimeRange) {
        self.range
    }

    fn timed_text(&self) -> (text: &String) {
        &self.text
    }
}

/// Whether an earlier item has the identifier of the one at `index`.
pub open spec fn timed_repeats<T: Timed>(items: Seq<T::V>, index: int) -> bool {
    exists|earlier: int|
        0 <= earlier < index && T::timed(#[trigger] items[earlier]).id == T::timed(items[index]).id
}

/// When the item before `index` ends.
pub open spec fn previous_end<T: Timed>(items: Seq<T::V>, index: int) -> int {
    if index <= 0 {
        0
    } else {
        T::timed(items[index - 1]).range.end()
    }
}

/// The rules on the item at `index`: a fresh identifier, a range on the clock after the item before
/// it, and text that says something.
pub open spec fn timed_item_fault<T: Timed>(
    items: Seq<T::V>,
    index: int,
    duration: int,
    field: Seq<char>,
    code: VideoErrorCode,
) -> Option<Fault> {
    let item = T::timed(items[index]);
    or_else(
        identifier_fault(item.id, field),
        or_else(
            unless(!timed_repeats::<T>(items, index), duplicate_fault(field, item.id)),
            or_else(
                within_fault(item.range, duration, code, field),
                or_else(
                    unless(
                        item.range.start() >= previous_end::<T>(items, index),
                        fault_at(
                            VideoErrorCode::TimelineOverlap,
                            "source-clock transcript entries overlap or are not ordered"@,
                            field,
                        ),
                    ),
                    unless(
                        !blank(item.text) && byte_len(item.text) <= 20_000,
                        fault_at(code, "timed text is empty or too large"@, field),
                    ),
                ),
            ),
        ),
    )
}

pub open spec fn timed_fault_from<T: Timed>(
    items: Seq<T::V>,
    index: int,
    duration: int,
    field: Seq<char>,
    code: VideoErrorCode,
) -> Option<Fault>
    decreases items.len() - index,
{
    if index < 0 || index >= items.len() {
        None
    } else {
        or_else(
            timed_item_fault::<T>(items, index, duration, field, code),
            timed_fault_from::<T>(items, index + 1, duration, field, code),
        )
    }
}

pub fn validate_timed_text_items<T: Timed>(
    items: &Vec<T>,
    duration: Microseconds,
    field: &str,
    code: VideoErrorCode,
) -> (result: VideoResult<()>)
    ensures
        refusal(result) == timed_fault_from::<T>(items.deep_view(), 0, duration.0 as int, field@, code),
{
    let ghost model = items.deep_view();
    let mut seen: StringHashSet = StringHashSet::new();
    let mut previous: Microseconds = Microseconds(0);
    let mut index: usize = 0;
    while index < items.len()
        invariant
            index <= items.len(),
            model == items.deep_view(),
            previous.0 == previous_end::<T>(model, index as int),
            forall|id: Seq<char>|
                #[trigger] seen@.contains(id) <==> exists|i: int|
                    0 <= i < index && T::timed(#[trigger] model[i]).id == id,
            timed_fault_from::<T>(model, 0, duration.0 as int, field@, code) == timed_fault_from::<T>(
                model,
                index as int,
                duration.0 as int,
                field@,
                code,
            ),
        decreases items.len() - index,
    {
        let item = &items[index];
        assert(model[index as int] == item.deep_view());
        let id: &String = item.timed_id();
        validate_identifier(id.as_str(), field)?;
        let fresh: bool = seen.insert(id.clone());
        if !fresh {
            assert(timed_repeats::<T>(model, index as int));
            return Err(duplicate_id_error(field, id.as_str()));
        }
        assert(!timed_repeats::<T>(model, index as int));
        let range: TimeRange = item.timed_range();
        validate_range_within(range, duration, code, field)?;
        if range.start_us.0 < previous.0 {
            return Err(
                refuse(
                    VideoErrorCode::TimelineOverlap,
                    "source-clock transcript entries overlap or are not ordered",
                    field,
                ),
            );
        }
        let text: &String = item.timed_text();
        if is_blank(text.as_str()) || bytes_in(text.as_str()) > 20_000 {
            return Err(refuse(code, "timed text is empty or too large", field));
        }
        previous = range.end_us;
        index += 1;
    }
    Ok(())
}

pub open spec fn missing_word_fault(word_id: Seq<char>) -> Fault {
    fault_at(
        VideoErrorCode::MissingReference,
        "segment references missing word "@ + word_id,
        "transcript.segments.word_ids"@,
    )
}

/// The refusal of the first word, from a place on, that the transcript does not have.
pub open spec fn word_reference_fault_from(
    known: Seq<Seq<char>>,
    word_ids: Seq<Seq<char>>,
    index: int,
) -> Option<Fault>
    decreases word_ids.len() - index,
{
    if index < 0 || index >= word_ids.len() {
        None
    } else {
        or_else(
            unless(known.contains(word_ids[index]), missing_word_fault(word_ids[index])),
            word_reference_fault_from(known, word_ids, index + 1),
        )
    }
}

pub open spec fn segment_reference_fault_from(
    known: Seq<Seq<char>>,
    segments: Seq<TranscriptSegmentModel>,
    index: int,
) -> Option<Fault>
    decreases segments.len() - index,
{
    if index < 0 || index >= segments.len() {
        None
    } else {
        or_else(
            word_reference_fault_from(known, segments[index].word_ids, 0),
            segment_reference_fault_from(known, segments, index + 1),
        )
    }
}

/// A set of the identifiers in a list.
pub fn id_set(ids: &Vec<String>) -> (set: StringHashSet)
    ensures
        forall|id: Seq<char>| #[trigger] set@.contains(id) <==> ids.deep_view().contains(id),
{
    let ghost model = ids.deep_view();
    let mut set: StringHashSet = StringHashSet::new();
    let mut index: usize = 0;
    while index < ids.len()
        invariant
            index <= ids.len(),
            model == ids.deep_view(),
            forall|id: Seq<char>|
                #[trigger] set@.contains(id) <==> exists|i: int| 0 <= i < index && #[trigger] model[i] == id,
        decreases ids.len() - index,
    {
        assert(model[index as int] == ids[index as int]@);
        set.insert(ids[index].clone());
        index += 1;
    }
    set
}

fn validate_word_references(known: &Vec<String>, segments: &Vec<TranscriptSegment>) -> (result: VideoResult<()>)
    ensures
        refusal(result) == segment_reference_fault_from(known.deep_view(), segments.deep_view(), 0),
{
    let ghost names = known.deep_view();
    let ghost model = segments.deep_view();
    let set: StringHashSet = id_set(known);
    let mut index: usize = 0;
    while index < segments.len()
        invariant
            index <= segments.len(),
            names == known.deep_view(),
            model == segments.deep_view(),
            forall|id: Seq<char>| #[trigger] set@.contains(id) <==> names.contains(id),
            segment_reference_fault_from(names, model, 0) == segment_reference_fault_from(
                names,
                model,
                index as int,
            ),
        decreases segments.len() - index,
    {
        let word_ids: &Vec<String> = &segments[index].word_ids;
        let ghost wanted = word_ids.deep_view();
        assert(model[index as int].word_ids == wanted);
        let mut word: usize = 0;
        while word < word_ids.len()
            invariant
                index < segments.len(),
                word <= word_ids.len(),
                wanted == word_ids.deep_view(),
                names == known.deep_view(),
                model == segments.deep_view(),
                model[index as int].word_ids == wanted,
                forall|id: Seq<char>| #[trigger] set@.contains(id) <==> names.contains(id),
                segment_reference_fault_from(names, model, 0) == segment_reference_fault_from(
                    names,
                    model,
                    index as int,
                ),
                word_reference_fault_from(names, wanted, 0) == word_reference_fault_from(
                    names,
                    wanted,
                    word as int,
                ),
            decreases word_ids.len() - word,
        {
            assert(wanted[word as int] == word_ids[word as int]@);
            if !set.contains(word_ids[word].as_str()) {
                let message: String = text_concat(
                    "segment references missing word ",
                    word_ids[word].as_str(),
                );
                return Err(
                    refuse(
                        VideoErrorCode::MissingReference,
                        message.as_str(),
                        "transcript.segments.word_ids",
                    ),
                );
            }
            word += 1;
        }
        index += 1;
    }
    Ok(())
}

impl Validate for TranscriptVersion {
    open spec fn fault_of(model: TranscriptVersionModel) -> Option<Fault> {
        let clock = model.source_clock_duration_us.0 as int;
        or_else(
            identifier_fault(model.id, "transcript.id"@),
            or_else(
                identifier_fault(model.source_asset_id, "transcript.source_asset_id"@),
                or_else(
                    unless(
                        1 <= clock <= MAX_SOURCE_DURATION_US,
                        fault_at(
                            VideoErrorCode::InvalidTranscript,
                            "transcript source-clock duration must be positive and no greater than 6 hours"@,
                            "transcript.source_clock_duration_us"@,
                        ),
                    ),
                    or_else(
                        unless(
                            model.preserved_source_gaps,
                            fault(
                                VideoErrorCode::InvalidTranscript,
                                "transcript timing must preserve the original source-clock gaps"@,
                            ),
                        ),
                        or_else(
                            sha256_fault(
                                model.content_sha256,
                                "transcript.content_sha256"@,
                                VideoErrorCode::InvalidTranscript,
                            ),
                            or_else(
                                timestamp_fault(model.created_at, "transcript.created_at"@),
                                or_else(
                                    timed_fault_from::<TranscriptWord>(
                                        model.words,
                                        0,
                                        clock,
                                        "transcript.words"@,
                                        VideoErrorCode::InvalidTranscript,
                                    ),
                                    or_else(
                                        timed_fault_from::<TranscriptSegment>(
                                            model.segments,
                                            0,
                                            clock,
                                            "transcript.segments"@,
                                            VideoErrorCode::InvalidTranscript,
                                        ),
                                        segment_reference_fault_from(
                                            names::<TranscriptWord>(model.words),
                                            model.segments,
                                            0,
                                        ),
                                    ),
                                ),
                            ),
                        ),
                    ),
                ),
            ),
        )
    }

    fn validate(&self) -> (result: VideoResult<()>) {
        validate_identifier(self.id.as_str(), "transcript.id")?;
        validate_identifier(self.source_asset_id.as_str(), "transcript.source_asset_id")?;
        if self.source_clock_duration_us.0 < 1 || self.source_clock_duration_us.0 > MAX_SOURCE_DURATION_US {
            return Err(
                refuse(
                    VideoErrorCode::InvalidTranscript,
                    "transcript source-clock duration must be positive and no greater than 6 hours",
                    "transcript.source_clock_duration_us",
                ),
            );
        }
        if !self.preserved_source_gaps {
            return Err(
                VideoError::new(
                    VideoErrorCode::InvalidTranscript,
                    "transcript timing must preserve the original source-clock gaps",
                ),
            );
        }
        validate_sha256(
            self.content_sha256.as_str(),
            "transcript.content_sha256",
            VideoErrorCode::InvalidTranscript,
        )?;
        validate_timestamp_text(self.created_at.as_str(), "transcript.created_at")?;
        validate_timed_text_items(
            &self.words,
            self.source_clock_duration_us,
            "transcript.words",
            VideoErrorCode::InvalidTranscript,
        )?;
        validate_timed_text_items(
            &self.segments,
            self.source_clock_duration_us,
            "transcript.segments",
            VideoErrorCode::InvalidTranscript,
        )?;
        let known: Vec<String> = collect_names(&self.words);
        validate_word_references(&known, &self.segments)
    }
}

impl Validate for ClipCandidate {
    open spec fn fault_of(model: ClipCandidateModel) -> Option<Fault> {
        or_else(
            identifier_fault(model.id, "candidates.id"@),
            or_else(
                identifier_fault(model.source_asset_id, "candidates.source_asset_id"@),
                or_else(
                    TimeRange::fault_of(model.source_range),
                    or_else(
                        nonempty_fault(model.title, "candidates.title"@, 512),
                        or_else(
                            nonempty_fault(model.rationale, "candidates.rationale"@, 4_096),
                            unless(
                                model.score_milli <= 1_000,
                                fault(
                                    VideoErrorCode::InvalidCandidate,
                                    "candidate score_milli must be in 0..=1000"@,
                                ),
                            ),
                        ),
                    ),
                ),
            ),
        )
    }

    fn validate(&self) -> (result: VideoResult<()>) {
        validate_identifier(self.id.as_str(), "candidates.id")?;
        validate_identifier(self.source_asset_id.as_str(), "candidates.source_asset_id")?;
        self.source_range.validate()?;
        validate_nonempty(self.title.as_str(), "candidates.title", 512)?;
        validate_nonempty(self.rationale.as_str(), "candidates.rationale", 4_096)?;
        if self.score_milli > 1_000 {
            return Err(
                VideoError::new(
                    VideoErrorCode::InvalidCandidate,
                    "candidate score_milli must be in 0..=1000",
                ),
            );
        }
        Ok(())
    }
}

/// The rule that a source and its range are given together, and each is valid.
pub open spec fn source_pair_fault(
    source_asset_id: Option<Seq<char>>,
    source_range: Option<TimeRange>,
    field: Seq<char>,
    code: VideoErrorCode,
) -> Option<Fault> {
    match (source_asset_id, source_range) {
        (Some(id), Some(range)) => or_else(identifier_fault(id, field), TimeRange::fault_of(range)),
        (None, None) => None,
        _ => Some(fault(code, "source_asset_id and source_range must be supplied together"@)),
    }
}

fn validate_source_pair(
    source_asset_id: &Option<String>,
    source_range: Option<TimeRange>,
    field: &str,
    code: VideoErrorCode,
) -> (result: VideoResult<()>)
    ensures
        refusal(result) == source_pair_fault(source_asset_id.deep_view(), source_range, field@, code),
{
    match (source_asset_id, source_range) {
        (Some(id), Some(range)) => {
            validate_identifier(id.as_str(), field)?;
            range.validate()
        },
        (None, None) => Ok(()),
        _ => Err(VideoError::new(code, "source_asset_id and source_range must be supplied together")),
    }
}

impl Validate for ReviewedScene {
    open spec fn fault_of(model: ReviewedSceneModel) -> Option<Fault> {
        or_else(
            identifier_fault(model.id, "reviewed_scenes.id"@),
            or_else(
                unless(
                    model.timeline_start_us.0 >= 0 && model.timeline_duration_us.0 > 0,
                    fault(
                        VideoErrorCode::InvalidScene,
                        "scene timeline start must be non-negative and duration positive"@,
                    ),
                ),
                or_else(
                    source_pair_fault(
                        model.source_asset_id,
                        model.source_range,
                        "reviewed_scenes.source_asset_id"@,
                        VideoErrorCode::InvalidScene,
                    ),
                    or_else(
                        optional_identifier_fault(model.candidate_id, "reviewed_scenes.candidate_id"@),
                        or_else(
                            nonempty_fault(model.title, "reviewed_scenes.title"@, 512),
                            unless(
                                byte_len(model.script) <= 100_000,
                                fault(VideoErrorCode::InvalidScene, "scene script is too large"@),
                            ),
                        ),
                    ),
                ),
            ),
        )
    }

    fn validate(&self) -> (result: VideoResult<()>) {
        validate_identifier(self.id.as_str(), "reviewed_scenes.id")?;
        if self.timeline_start_us.0 < 0 || self.timeline_duration_us.0 <= 0 {
            return Err(
                VideoError::new(
                    VideoErrorCode::InvalidScene,
                    "scene timeline start must be non-negative and duration positive",
                ),
            );
        }
        validate_source_pair(
            &self.source_asset_id,
            self.source_range,
            "reviewed_scenes.source_asset_id",
            VideoErrorCode::InvalidScene,
        )?;
        validate_optional_identifier(&self.candidate_id, "reviewed_scenes.candidate_id")?;
        validate_nonempty(self.title.as_str(), "reviewed_scenes.title", 512)?;
        if bytes_in(self.script.as_str()) > 100_000 {
            return Err(VideoError::new(VideoErrorCode::InvalidScene, "scene script is too large"));
        }
        Ok(())
    }
}

impl Validate for MediaReference {
    open spec fn fault_of(model: MediaReferenceModel) -> Option<Fault> {
        match (model.source_asset_id, model.render_artifact_id) {
            (Some(source), None) => identifier_fault(source, "media.source_asset_id"@),
            (None, Some(artifact)) => identifier_fault(artifact, "media.render_artifact_id"@),
            _ => Some(
                fault(
                    VideoErrorCode::InvalidTrack,
                    "media reference must select exactly one source asset or render artifact"@,
                ),
            ),
        }
    }

    fn validate(&self) -> (result: VideoResult<()>) {
        match (&self.source_asset_id, &self.render_artifact_id) {
            (Some(source), None) => validate_identifier(source.as_str(), "media.source_asset_id"),
            (None, Some(artifact)) => validate_identifier(artifact.as_str(), "media.render_artifact_id"),
            _ => Err(
                VideoError::new(
                    VideoErrorCode::InvalidTrack,
                    "media reference must select exactly one source asset or render artifact",
                ),
            ),
        }
    }
}

/// A rectangle with some area that lies on the canvas.
pub open spec fn is_normalized_rect(rect: NormalizedRect) -> bool {
    &&& rect.x_bp >= 0
    &&& rect.y_bp >= 0
    &&& rect.width_bp > 0
    &&& rect.height_bp > 0
    &&& rect.x_bp + rect.width_bp <= NORMALIZED_BASIS_POINTS
    &&& rect.y_bp + rect.height_bp <= NORMALIZED_BASIS_POINTS
}

impl Validate for NormalizedRect {
    open spec fn fault_of(model: NormalizedRect) -> Option<Fault> {
        unless(
            is_normalized_rect(model),
            fault(
                VideoErrorCode::InvalidLayout,
                "normalized rectangle must fit within 0..=10000 basis points"@,
            ),
        )
    }

    fn validate(&self) -> (result: VideoResult<()>) {
        if self.x_bp < 0 || self.y_bp < 0 || self.width_bp <= 0 || self.height_bp <= 0 || self.x_bp as i64
            + self.width_bp as i64 > NORMALIZED_BASIS_POINTS as i64 || self.y_bp as i64
            + self.height_bp as i64 > NORMALIZED_BASIS_POINTS as i64 {
            return Err(
                VideoError::new(
                    VideoErrorCode::InvalidLayout,
                    "normalized rectangle must fit within 0..=10000 basis points",
                ),
            );
        }
        Ok(())
    }
}

pub open spec fn rect_fault(rect: Option<NormalizedRect>) -> Option<Fault> {
    match rect {
        Some(rect) => NormalizedRect::fault_of(rect),
        None => None,
    }
}

/// The refusal met on the way to a span's range on the timeline, if any.
pub open spec fn span_fault(start: Microseconds, duration: Microseconds) -> Option<Fault> {
    or_else(
        unless(on_clock(start.0 + duration.0), addition_fault()),
        range_fault(start.0 as int, start.0 + duration.0),
    )
}

/// The range of a span on the timeline.
pub open spec fn span_range(start: Microseconds, duration: Microseconds) -> TimeRange {
    TimeRange { start_us: start, end_us: Microseconds((start.0 + duration.0) as i64) }
}

pub fn span_timeline_range(start: Microseconds, duration: Microseconds) -> (result: VideoResult<TimeRange>)
    ensures
        refusal(result) == span_fault(start, duration),
        result matches Ok(range) ==> range == span_range(start, duration),
{
    let end: Microseconds = start.checked_add(duration)?;
    TimeRange::new(start.0, end.0)
}

impl TimelineClipModel {
    /// Where the clip stands on the timeline.
    pub open spec fn span(self) -> TimeRange {
        span_range(self.timeline_start_us, self.timeline_duration_us)
    }

    pub open spec fn span_refusal(self) -> Option<Fault> {
        span_fault(self.timeline_start_us, self.timeline_duration_us)
    }
}

impl TimelineClip {
    pub fn timeline_range(&self) -> (result: VideoResult<TimeRange>)
        ensures
            refusal(result) == self.deep_view().span_refusal(),
            result matches Ok(range) ==> range == self.deep_view().span(),
    {
        span_timeline_range(self.timeline_start_us, self.timeline_duration_us)
    }
}

/// Whether a clip consumes source time at exactly its playback rate.
pub open spec fn plays_exactly(model: TimelineClipModel) -> bool {
    model.source_range.length() * model.playback_rate.denominator == model.timeline_duration_us.0
        * model.playback_rate.numerator
}

impl Validate for TimelineClip {
    open spec fn fault_of(model: TimelineClipModel) -> Option<Fault> {
        or_else(
            identifier_fault(model.id, "tracks.clips.id"@),
            or_else(
                optional_identifier_fault(model.scene_id, "tracks.clips.scene_id"@),
                or_else(
                    MediaReference::fault_of(model.media),
                    or_else(
                        TimeRange::fault_of(model.source_range),
                        or_else(
                            RationalRate::fault_of(model.playback_rate),
                            or_else(
                                unless(
                                    model.timeline_start_us.0 >= 0 && model.timeline_duration_us.0 > 0,
                                    fault(
                                        VideoErrorCode::InvalidTrack,
                                        "clip timeline start must be non-negative and duration positive"@,
                                    ),
                                ),
                                or_else(
                                    unless(
                                        plays_exactly(model),
                                        fault(
                                            VideoErrorCode::DurationMismatch,
                                            "source and timeline durations do not exactly match playback_rate"@,
                                        ),
                                    ),
                                    or_else(
                                        unless(
                                            -96_000 <= model.gain_db_milli <= 24_000,
                                            fault(
                                                VideoErrorCode::InvalidTrack,
                                                "clip gain_db_milli is outside -96000..=24000"@,
                                            ),
                                        ),
                                        rect_fault(model.crop),
                                    ),
                                ),
                            ),
                        ),
                    ),
                ),
            ),
        )
    }

    fn validate(&self) -> (result: VideoResult<()>) {
        validate_identifier(self.id.as_str(), "tracks.clips.id")?;
        validate_optional_identifier(&self.scene_id, "tracks.clips.scene_id")?;
        self.media.validate()?;
        self.source_range.validate()?;
        self.playback_rate.validate()?;
        if self.timeline_start_us.0 < 0 || self.timeline_duration_us.0 <= 0 {
            return Err(
                VideoError::new(
                    VideoErrorCode::InvalidTrack,
                    "clip timeline start must be non-negative and duration positive",
                ),
            );
        }
        let consumed: i128 = (self.source_range.end_us.0 - self.source_range.start_us.0) as i128;
        let shown: i128 = self.timeline_duration_us.0 as i128;
        let denominator: i128 = self.playback_rate.denominator as i128;
        let numerator: i128 = self.playback_rate.numerator as i128;
        assert(0 <= consumed * denominator <= 0x7fff_ffff_ffff_ffff * 0xffff_ffff) by (nonlinear_arith)
            requires
                0 <= consumed <= 0x7fff_ffff_ffff_ffff,
                0 <= denominator <= 0xffff_ffff,
        ;
        assert(0 <= shown * numerator <= 0x7fff_ffff_ffff_ffff * 0xffff_ffff) by (nonlinear_arith)
            requires
                0 <= shown <= 0x7fff_ffff_ffff_ffff,
                0 <= numerator <= 0xffff_ffff,
        ;
        if consumed * denominator != shown * numerator {
            return Err(
                VideoError::new(
                    VideoErrorCode::DurationMismatch,
                    "source and timeline durations do not exactly match playback_rate",
                ),
            );
        }
        if self.gain_db_milli < -96_000 || self.gain_db_milli > 24_000 {
            return Err(
                VideoError::new(
                    VideoErrorCode::InvalidTrack,
                    "clip gain_db_milli is outside -96000..=24000",
                ),
            );
        }
        if let Some(crop) = self.crop {
            crop.validate()?;
        }
        Ok(())
    }
}

impl Validate for TimelineGap {
    open spec fn fault_of(model: TimelineGapModel) -> Option<Fault> {
        or_else(
            identifier_fault(model.id, "gaps.id"@),
            or_else(
                identifier_fault(model.track_id, "gaps.track_id"@),
                or_else(
                    TimeRange::fault_of(model.range),
                    or_else(
                        source_pair_fault(
                            model.source_asset_id,
                            model.source_range,
                            "gaps.source_asset_id"@,
                            VideoErrorCode::InvalidGap,
                        ),
                        or_else(
                            unless(
                                model.source_range matches Some(source) ==> source.length()
                                    == model.range.length(),
                                fault(
                                    VideoErrorCode::DurationMismatch,
                                    "a source-clock gap must retain its original duration"@,
                                ),
                            ),
                            unless(
                                model.reason != GapReason::SourceSilence || model.source_range is Some,
                                fault(
                                    VideoErrorCode::InvalidGap,
                                    "source-silence gaps require a source-clock range"@,
                                ),
                            ),
                        ),
                    ),
                ),
            ),
        )
    }

    fn validate(&self) -> (result: VideoResult<()>) {
        validate_identifier(self.id.as_str(), "gaps.id")?;
        validate_identifier(self.track_id.as_str(), "gaps.track_id")?;
        self.range.validate()?;
        validate_source_pair(
            &self.source_asset_id,
            self.source_range,
            "gaps.source_asset_id",
            VideoErrorCode::InvalidGap,
        )?;
        if let Some(source) = self.source_range {
            if source.end_us.0 - source.start_us.0 != self.range.end_us.0 - self.range.start_us.0 {
                return Err(
                    VideoError::new(
                        VideoErrorCode::DurationMismatch,
                        "a source-clock gap must retain its original duration",
                    ),
                );
            }
        }
        if self.reason == GapReason::SourceSilence && self.source_range.is_none() {
            return Err(
                VideoError::new(
                    VideoErrorCode::InvalidGap,
                    "source-silence gaps require a source-clock range",
                ),
            );
        }
        Ok(())
    }
}

/// Stable, curated caption looks shared by manifests, commands and the renderer. Public surfaces
/// use [`Self::public_id`]; persisted cues use [`Self::manifest_id`]. Parsing accepts both forms so
/// existing projects remain readable while unsupported identifiers fail closed instead of silently
/// changing appearance.
#[derive(Clone, Copy, Debug, PartialEq, Eq, PartialOrd, Ord, Structural)]
pub enum CaptionPresetId {
    CleanWhite,
    Calm,
    Kinetic,
    BoldPop,
    Highlight,
    Karaoke,
    Typewriter,
    Podcast,
}

impl CaptionPresetId {
    pub open spec fn public_text(self) -> Seq<char> {
        match self {
            CaptionPresetId::CleanWhite => "clean-white"@,
            CaptionPresetId::Calm => "calm"@,
            CaptionPresetId::Kinetic => "kinetic"@,
            CaptionPresetId::BoldPop => "bold-pop"@,
            CaptionPresetId::Highlight => "highlight"@,
            CaptionPresetId::Karaoke => "karaoke"@,
            CaptionPresetId::Typewriter => "typewriter"@,
            CaptionPresetId::Podcast => "podcast"@,
        }
    }

    pub open spec fn manifest_text(self) -> Seq<char> {
        match self {
            CaptionPresetId::CleanWhite => "caption-clean-white"@,
            CaptionPresetId::Calm => "caption-calm"@,
            CaptionPresetId::Kinetic => "caption-kinetic"@,
            CaptionPresetId::BoldPop => "caption-bold-pop"@,
            CaptionPresetId::Highlight => "caption-highlight"@,
            CaptionPresetId::Karaoke => "caption-karaoke"@,
            CaptionPresetId::Typewriter => "caption-typewriter"@,
            CaptionPresetId::Podcast => "caption-podcast"@,
        }
    }

    /// The preset that a style text names, without regard to surrounding space and ASCII case.
    pub open spec fn named(style: Seq<char>) -> Option<CaptionPresetId> {
        let key = ascii_lowercase(trimmed(style));
        if key == "clean"@ || key == "clean-white"@ || key == "caption-clean"@ || key
            == "caption-clean-white"@ {
            Some(CaptionPresetId::CleanWhite)
        } else if key == "calm"@ || key == "caption-calm"@ {
            Some(CaptionPresetId::Calm)
        } else if key == "kinetic"@ || key == "caption-kinetic"@ {
            Some(CaptionPresetId::Kinetic)
        } else if key == "bold-pop"@ || key == "caption-bold-pop"@ {
            Some(CaptionPresetId::BoldPop)
        } else if key == "highlight"@ || key == "caption-highlight"@ {
            Some(CaptionPresetId::Highlight)
        } else if key == "karaoke"@ || key == "caption-karaoke"@ {
            Some(CaptionPresetId::Karaoke)
        } else if key == "typewriter"@ || key == "caption-typewriter"@ {
            Some(CaptionPresetId::Typewriter)
        } else if key == "podcast"@ || key == "caption-podcast"@ {
            Some(CaptionPresetId::Podcast)
        } else {
            None
        }
    }

    /// Every preset, in its curated order.
    pub open spec fn in_order() -> Seq<CaptionPresetId> {
        seq![
            CaptionPresetId::CleanWhite,
            CaptionPresetId::Calm,
            CaptionPresetId::Kinetic,
            CaptionPresetId::BoldPop,
            CaptionPresetId::Highlight,
            CaptionPresetId::Karaoke,
            CaptionPresetId::Typewriter,
            CaptionPresetId::Podcast,
        ]
    }

    /// Every preset, in its curated order.
    pub fn all() -> (presets: Vec<CaptionPresetId>)
        ensures
            presets@ == CaptionPresetId::in_order(),
    {
        let mut presets: Vec<CaptionPresetId> = Vec::new();
        presets.push(CaptionPresetId::CleanWhite);
        presets.push(CaptionPresetId::Calm);
        presets.push(CaptionPresetId::Kinetic);
        presets.push(CaptionPresetId::BoldPop);
        presets.push(CaptionPresetId::Highlight);
        presets.push(CaptionPresetId::Karaoke);
        presets.push(CaptionPresetId::Typewriter);
        presets.push(CaptionPresetId::Podcast);
        presets
    }

    pub fn parse(value: &str) -> (result: VideoResult<CaptionPresetId>)
        ensures
            refusal(result) == style_fault(value@),
            result matches Ok(preset) ==> CaptionPresetId::named(value@) == Some(preset),
    {
        let lowered: String = value.trim().to_ascii_lowercase();
        let key: &str = lowered.as_str();
        if text_eq(key, "clean") || text_eq(key, "clean-white") || text_eq(key, "caption-clean")
            || text_eq(key, "caption-clean-white") {
            Ok(CaptionPresetId::CleanWhite)
        } else if text_eq(key, "calm") || text_eq(key, "caption-calm") {
            Ok(CaptionPresetId::Calm)
        } else if text_eq(key, "kinetic") || text_eq(key, "caption-kinetic") {
            Ok(CaptionPresetId::Kinetic)
        } else if text_eq(key, "bold-pop") || text_eq(key, "caption-bold-pop") {
            Ok(CaptionPresetId::BoldPop)
        } else if text_eq(key, "highlight") || text_eq(key, "caption-highlight") {
            Ok(CaptionPresetId::Highlight)
        } else if text_eq(key, "karaoke") || text_eq(key, "caption-karaoke") {
            Ok(CaptionPresetId::Karaoke)
        } else if text_eq(key, "typewriter") || text_eq(key, "caption-typewriter") {
            Ok(CaptionPresetId::Typewriter)
        } else if text_eq(key, "podcast") || text_eq(key, "caption-podcast") {
            Ok(CaptionPresetId::Podcast)
        } else {
            Err(
                refuse(
                    VideoErrorCode::InvalidCaption,
                    "unsupported caption style; expected one of clean-white, calm, kinetic, bold-pop, highlight, karaoke, typewriter, podcast",
                    "captions.style_id",
                ),
            )
        }
    }

    pub fn public_id(self) -> (text: &'static str)
        ensures
            text@ == self.public_text(),
    {
        match self {
            CaptionPresetId::CleanWhite => "clean-white",
            CaptionPresetId::Calm => "calm",
            CaptionPresetId::Kinetic => "kinetic",
            CaptionPresetId::BoldPop => "bold-pop",
            CaptionPresetId::Highlight => "highlight",
            CaptionPresetId::Karaoke => "karaoke",
            CaptionPresetId::Typewriter => "typewriter",
            CaptionPresetId::Podcast => "podcast",
        }
    }

    pub fn manifest_id(self) -> (text: &'static str)
        ensures
            text@ == self.manifest_text(),
    {
        match self {
            CaptionPresetId::CleanWhite => "caption-clean-white",
            CaptionPresetId::Calm => "caption-calm",
            CaptionPresetId::Kinetic => "caption-kinetic",
            CaptionPresetId::BoldPop => "caption-bold-pop",
            CaptionPresetId::Highlight => "caption-highlight",
            CaptionPresetId::Karaoke => "caption-karaoke",
            CaptionPresetId::Typewriter => "caption-typewriter",
            CaptionPresetId::Podcast => "caption-podcast",
        }
    }
}

pub open spec fn style_fault(style: Seq<char>) -> Option<Fault> {
    unless(
        CaptionPresetId::named(style) is Some,
        fault_at(
            VideoErrorCode::InvalidCaption,
            "unsupported caption style; expected one of clean-white, calm, kinetic, bold-pop, highlight, karaoke, typewriter, podcast"@,
            "captions.style_id"@,
        ),
    )
}

impl Validate for CaptionCue {
    open spec fn fault_of(model: CaptionCueModel) -> Option<Fault> {
        or_else(
            identifier_fault(model.id, "captions.id"@),
            or_else(
                TimeRange::fault_of(model.range),
                or_else(
                    nonempty_fault(model.text, "captions.text"@, 2_000),
                    or_else(
                        style_fault(model.style_id),
                        optional_identifier_fault(model.scene_id, "captions.scene_id"@),
                    ),
                ),
            ),
        )
    }

    fn validate(&self) -> (result: VideoResult<()>) {
        validate_identifier(self.id.as_str(), "captions.id")?;
        self.range.validate()?;
        validate_nonempty(self.text.as_str(), "captions.text", 2_000)?;
        CaptionPresetId::parse(self.style_id.as_str())?;
        validate_optional_identifier(&self.scene_id, "captions.scene_id")
    }
}

impl Validate for CanvasSpec {
    open spec fn fault_of(model: CanvasSpec) -> Option<Fault> {
        unless(
            0 < model.width <= 16_384 && 0 < model.height <= 16_384 && model.pixel_aspect_numerator != 0
                && model.pixel_aspect_denominator != 0,
            fault(VideoErrorCode::InvalidLayout, "canvas dimensions/aspect are invalid"@),
        )
    }

    fn validate(&self) -> (result: VideoResult<()>) {
        if self.width == 0 || self.height == 0 || self.width > 16_384 || self.height > 16_384
            || self.pixel_aspect_numerator == 0 || self.pixel_aspect_denominator == 0 {
            return Err(
                VideoError::new(VideoErrorCode::InvalidLayout, "canvas dimensions/aspect are invalid"),
            );
        }
        Ok(())
    }
}

impl Validate for LayoutElement {
    open spec fn fault_of(model: LayoutElementModel) -> Option<Fault> {
        or_else(
            identifier_fault(model.id, "layout.elements.id"@),
            or_else(
                NormalizedRect::fault_of(model.bounds),
                optional_identifier_fault(model.scene_id, "layout.elements.scene_id"@),
            ),
        )
    }

    fn validate(&self) -> (result: VideoResult<()>) {
        validate_identifier(self.id.as_str(), "layout.elements.id")?;
        self.bounds.validate()?;
        validate_optional_identifier(&self.scene_id, "layout.elements.scene_id")
    }
}

/// The refusal of the first item, from a place on, that breaks a rule of its own.
pub open spec fn each_fault_from<T: Validate>(items: Seq<T::V>, index: int) -> Option<Fault>
    decreases items.len() - index,
{
    if index < 0 || index >= items.len() {
        None
    } else {
        or_else(T::fault_of(items[index]), each_fault_from::<T>(items, index + 1))
    }
}

pub fn validate_each<T: Validate>(items: &Vec<T>) -> (result: VideoResult<()>)
    ensures
        refusal(result) == each_fault_from::<T>(items.deep_view(), 0),
{
    let mut index: usize = 0;
    while index < items.len()
        invariant
            index <= items.len(),
            each_fault_from::<T>(items.deep_view(), 0) == each_fault_from::<T>(
                items.deep_view(),
                index as int,
            ),
        decreases items.len() - index,
    {
        assert(items.deep_view()[index as int] == items[index as int].deep_view());
        items[index].validate()?;
        index += 1;
    }
    Ok(())
}

impl Validate for LayoutPlan {
    open spec fn fault_of(model: LayoutPlanModel) -> Option<Fault> {
        or_else(
            CanvasSpec::fault_of(model.canvas),
            or_else(
                NormalizedRect::fault_of(model.safe_area),
                or_else(
                    unique_fault(names::<LayoutElement>(model.elements), "layout.elements"@),
                    each_fault_from::<LayoutElement>(model.elements, 0),
                ),
            ),
        )
    }

    fn validate(&self) -> (result: VideoResult<()>) {
        self.canvas.validate()?;
        self.safe_area.validate()?;
        let ids: Vec<String> = collect_names(&self.elements);
        validate_unique_ids(&ids, "layout.elements")?;
        validate_each(&self.elements)
    }
}

impl Validate for AudioMixTrack {
    open spec fn fault_of(model: AudioMixTrackModel) -> Option<Fault> {
        or_else(
            identifier_fault(model.track_id, "audio_mix.tracks.track_id"@),
            or_else(
                unless(
                    -96_000 <= model.gain_db_milli <= 24_000 && -1_000 <= model.pan_milli <= 1_000,
                    fault(
                        VideoErrorCode::InvalidAudioMix,
                        "audio track gain or pan is outside supported bounds"@,
                    ),
                ),
                match model.ducking {
                    Some(ducking) => or_else(
                        identifier_fault(
                            ducking.sidechain_track_id,
                            "audio_mix.tracks.ducking.sidechain_track_id"@,
                        ),
                        unless(
                            -60_000 <= ducking.reduction_db_milli <= 0 && ducking.attack_us.0 >= 0
                                && ducking.release_us.0 >= 0,
                            fault(VideoErrorCode::InvalidAudioMix, "ducking parameters are invalid"@),
                        ),
                    ),
                    None => None,
                },
            ),
        )
    }

    fn validate(&self) -> (result: VideoResult<()>) {
        validate_identifier(self.track_id.as_str(), "audio_mix.tracks.track_id")?;
        if self.gain_db_milli < -96_000 || self.gain_db_milli > 24_000 || self.pan_milli < -1_000
            || self.pan_milli > 1_000 {
            return Err(
                VideoError::new(
                    VideoErrorCode::InvalidAudioMix,
                    "audio track gain or pan is outside supported bounds",
                ),
            );
        }
        if let Some(ducking) = &self.ducking {
            validate_identifier(
                ducking.sidechain_track_id.as_str(),
                "audio_mix.tracks.ducking.sidechain_track_id",
            )?;
            if ducking.reduction_db_milli < -60_000 || ducking.reduction_db_milli > 0 || ducking.attack_us.0 < 0
                || ducking.release_us.0 < 0 {
                return Err(
                    VideoError::new(VideoErrorCode::InvalidAudioMix, "ducking parameters are invalid"),
                );
            }
        }
        Ok(())
    }
}

impl Validate for AudioMix {
    open spec fn fault_of(model: AudioMixModel) -> Option<Fault> {
        or_else(
            unless(
                -36_000 <= model.target_lufs_milli <= -5_000 && -12_000 <= model.true_peak_db_milli <= 0,
                fault(
                    VideoErrorCode::InvalidAudioMix,
                    "loudness targets are outside safe supported bounds"@,
                ),
            ),
            or_else(
                unique_fault(names::<AudioMixTrack>(model.tracks), "audio_mix.tracks"@),
                each_fault_from::<AudioMixTrack>(model.tracks, 0),
            ),
        )
    }

    fn validate(&self) -> (result: VideoResult<()>) {
        if self.target_lufs_milli < -36_000 || self.target_lufs_milli > -5_000 || self.true_peak_db_milli
            < -12_000 || self.true_peak_db_milli > 0 {
            return Err(
                VideoError::new(
                    VideoErrorCode::InvalidAudioMix,
                    "loudness targets are outside safe supported bounds",
                ),
            );
        }
        let ids: Vec<String> = collect_names(&self.tracks);
        validate_unique_ids(&ids, "audio_mix.tracks")?;
        validate_each(&self.tracks)
    }
}

/// Whether an artifact's dimensions and duration, where given, are positive and given together.
pub open spec fn artifact_media_valid(model: RenderArtifactModel) -> bool {
    &&& model.duration_us matches Some(duration) ==> duration.0 > 0
    &&& model.width matches Some(width) ==> width > 0
    &&& model.height matches Some(height) ==> height > 0
    &&& model.width is Some == model.height is Some
}

impl Validate for RenderArtifact {
    open spec fn fault_of(model: RenderArtifactModel) -> Option<Fault> {
        or_else(
            identifier_fault(model.id, "render_artifacts.id"@),
            or_else(
                managed_path_fault(model.managed_path, "render_artifacts.managed_path"@),
                or_else(
                    sha256_fault(
                        model.sha256,
                        "render_artifacts.sha256"@,
                        VideoErrorCode::InvalidArtifact,
                    ),
                    or_else(
                        sha256_fault(
                            model.cache_key,
                            "render_artifacts.cache_key"@,
                            VideoErrorCode::InvalidArtifact,
                        ),
                        or_else(
                            nonempty_fault(model.mime_type, "render_artifacts.mime_type"@, 256),
                            or_else(
                                timestamp_fault(model.created_at, "render_artifacts.created_at"@),
                                unless(
                                    artifact_media_valid(model),
                                    fault(
                                        VideoErrorCode::InvalidArtifact,
                                        "artifact media dimensions or duration are invalid"@,
                                    ),
                                ),
                            ),
                        ),
                    ),
                ),
            ),
        )
    }

    fn validate(&self) -> (result: VideoResult<()>) {
        validate_identifier(self.id.as_str(), "render_artifacts.id")?;
        validate_managed_path(self.managed_path.as_str(), "render_artifacts.managed_path")?;
        validate_sha256(
            self.sha256.as_str(),
            "render_artifacts.sha256",
            VideoErrorCode::InvalidArtifact,
        )?;
        validate_sha256(
            self.cache_key.as_str(),
            "render_artifacts.cache_key",
            VideoErrorCode::InvalidArtifact,
        )?;
        validate_nonempty(self.mime_type.as_str(), "render_artifacts.mime_type", 256)?;
        validate_timestamp_text(self.created_at.as_str(), "render_artifacts.created_at")?;
        let timed: bool = match self.duration_us {
            Some(duration) => duration.0 > 0,
            None => true,
        };
        let sized: bool = match (self.width, self.height) {
            (Some(width), Some(height)) => width > 0 && height > 0,
            (None, None) => true,
            _ => false,
        };
        if !timed || !sized {
            return Err(
                VideoError::new(
                    VideoErrorCode::InvalidArtifact,
                    "artifact media dimensions or duration are invalid",
                ),
            );
        }
        Ok(())
    }
}

impl Validate for NarrationBinding {
    open spec fn fault_of(model: NarrationBindingModel) -> Option<Fault> {
        or_else(
            identifier_fault(model.id, "narration_bindings.id"@),
            or_else(
                optional_identifier_fault(model.scene_id, "narration_bindings.scene_id"@),
                or_else(
                    identifier_fault(model.render_artifact_id, "narration_bindings.render_artifact_id"@),
                    or_else(
                        identifier_fault(model.history_id, "narration_bindings.history_id"@),
                        or_else(
                            identifier_fault(
                                model.generation_job_id,
                                "narration_bindings.generation_job_id"@,
                            ),
                            or_else(
                                identifier_fault(model.voice_id, "narration_bindings.voice_id"@),
                                or_else(
                                    nonempty_fault(model.model_id, "narration_bindings.model_id"@, 256),
                                    or_else(
                                        nonempty_fault(model.speaker, "narration_bindings.speaker"@, 128),
                                        or_else(
                                            language_fault(
                                                model.language,
                                                "narration_bindings.language"@,
                                            ),
                                            or_else(
                                                sha256_fault(
                                                    model.script_sha256,
                                                    "narration_bindings.script_sha256"@,
                                                    VideoErrorCode::InvalidNarration,
                                                ),
                                                timestamp_fault(
                                                    model.created_at,
                                                    "narration_bindings.created_at"@,
                                                ),
                                            ),
                                        ),
                                    ),
                                ),
                            ),
                        ),
                    ),
                ),
            ),
        )
    }

    fn validate(&self) -> (result: VideoResult<()>) {
        validate_identifier(self.id.as_str(), "narration_bindings.id")?;
        validate_optional_identifier(&self.scene_id, "narration_bindings.scene_id")?;
        validate_identifier(self.render_artifact_id.as_str(), "narration_bindings.render_artifact_id")?;
        validate_identifier(self.history_id.as_str(), "narration_bindings.history_id")?;
        validate_identifier(self.generation_job_id.as_str(), "narration_bindings.generation_job_id")?;
        validate_identifier(self.voice_id.as_str(), "narration_bindings.voice_id")?;
        validate_nonempty(self.model_id.as_str(), "narration_bindings.model_id", 256)?;
        validate_nonempty(self.speaker.as_str(), "narration_bindings.speaker", 128)?;
        validate_language_tag(self.language.as_str(), "narration_bindings.language")?;
        validate_sha256(
            self.script_sha256.as_str(),
            "narration_bindings.script_sha256",
            VideoErrorCode::InvalidNarration,
        )?;
        validate_timestamp_text(self.created_at.as_str(), "narration_bindings.created_at")
    }
}

/// A JSON-pointer-style path of at most 1024 bytes.
pub open spec fn is_changed_path(path: Seq<char>) -> bool {
    path.len() > 0 && path[0] == '/' && byte_len(path) <= 1_024
}

pub open spec fn changed_paths_valid(paths: Seq<Seq<char>>) -> bool {
    paths.len() > 0 && forall|i: int| 0 <= i < paths.len() ==> is_changed_path(#[trigger] paths[i])
}

fn are_changed_paths(paths: &Vec<String>) -> (valid: bool)
    ensures
        valid == changed_paths_valid(paths.deep_view()),
{
    let ghost model = paths.deep_view();
    if paths.len() == 0 {
        return false;
    }
    let mut index: usize = 0;
    while index < paths.len()
        invariant
            index <= paths.len(),
            model == paths.deep_view(),
            forall|i: int| 0 <= i < index ==> is_changed_path(#[trigger] model[i]),
        decreases paths.len() - index,
    {
        let path: &str = paths[index].as_str();
        assert(model[index as int] == path@);
        if path.is_empty() || path.get_char(0) != '/' || bytes_in(path) > 1_024 {
            assert(!is_changed_path(model[index as int]));
            return false;
        }
        index += 1;
    }
    true
}

impl Validate for RevisionRecord {
    open spec fn fault_of(model: RevisionRecordModel) -> Option<Fault> {
        or_else(
            identifier_fault(model.id, "revision_history.id"@),
            or_else(
                optional_identifier_fault(model.parent_id, "revision_history.parent_id"@),
                or_else(
                    nonempty_fault(model.actor, "revision_history.actor"@, 256),
                    or_else(
                        nonempty_fault(model.reason, "revision_history.reason"@, 4_096),
                        or_else(
                            timestamp_fault(model.created_at, "revision_history.created_at"@),
                            unless(
                                changed_paths_valid(model.changed_paths),
                                fault(
                                    VideoErrorCode::InvalidRevision,
                                    "revision changed_paths must contain JSON-pointer-style paths"@,
                                ),
                            ),
                        ),
                    ),
                ),
            ),
        )
    }

    fn validate(&self) -> (result: VideoResult<()>) {
        validate_identifier(self.id.as_str(), "revision_history.id")?;
        validate_optional_identifier(&self.parent_id, "revision_history.parent_id")?;
        validate_nonempty(self.actor.as_str(), "revision_history.actor", 256)?;
        validate_nonempty(self.reason.as_str(), "revision_history.reason", 4_096)?;
        validate_timestamp_text(self.created_at.as_str(), "revision_history.created_at")?;
        if !are_changed_paths(&self.changed_paths) {
            return Err(
                VideoError::new(
                    VideoErrorCode::InvalidRevision,
                    "revision changed_paths must contain JSON-pointer-style paths",
                ),
            );
        }
        Ok(())
    }
}

/// A text of ASCII letters and hyphens is its own trimmed, lowered form.
proof fn lemma_plain_style(text: Seq<char>)
    requires
        text.len() > 0,
        forall|i: int| 0 <= i < text.len() ==> 'a' <= #[trigger] text[i] <= 'z' || text[i] == '-',
    ensures
        ascii_lowercase(trimmed(text)) == text,
{
    assert(text.last() == text[text.len() - 1]);
    assert(trimmed(text) == text);
    assert(ascii_lowercase(text) =~= text);
}

/// Both forms of a preset's identifier name that preset.
pub proof fn preset_identifiers_round_trip(preset: CaptionPresetId)
    ensures
        CaptionPresetId::named(preset.public_text()) == Some(preset),
        CaptionPresetId::named(preset.manifest_text()) == Some(preset),
{
    reveal_strlit("clean");
    reveal_strlit("clean-white");
    reveal_strlit("caption-clean");
    reveal_strlit("caption-clean-white");
    reveal_strlit("calm");
    reveal_strlit("caption-calm");
    reveal_strlit("kinetic");
    reveal_strlit("caption-kinetic");
    reveal_strlit("bold-pop");
    reveal_strlit("caption-bold-pop");
    reveal_strlit("highlight");
    reveal_strlit("caption-highlight");
    reveal_strlit("karaoke");
    reveal_strlit("caption-karaoke");
    reveal_strlit("typewriter");
    reveal_strlit("caption-typewriter");
    reveal_strlit("podcast");
    reveal_strlit("caption-podcast");
    lemma_plain_style(preset.public_text());
    lemma_plain_style(preset.manifest_text());
    let public = preset.public_text();
    let full = preset.manifest_text();
    assert(public[0] == public[0] && public[1] == public[1] && public[2] == public[2] && public[3] == public[3]);
    assert(full[8] == full[8] && full[9] == full[9] && full[10] == full[10] && full[11] == full[11]);
}

} // verus!
