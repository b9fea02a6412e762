//! Show formats: the reusable shape of a series.
//!
//! Instantiation copies. An episode never reads back through its format at render time, so editing
//! a format cannot retroactively change an episode that already shipped, and an episode rendered
//! next year reproduces what it was rendered from today. The format origin recorded on the manifest
//! is provenance - it says where these values came from - not a live link.

use crate::cast::{cast_fault_from, index_cast_by_name};
use crate::error::{fault_at, or_else, refusal, refuse, unless, Fault, VideoErrorCode, VideoResult};
use crate::lexicon::{lexicon_fault, validate_lexicon};
use crate::manifest::{
    AudioMix, AudioMixModel, CanvasMode, CanvasSpec, CastMember, CastMemberModel, CueAnchor, CueAnchorModel, CueRole,
    FormatOrigin, FormatOriginModel, LayoutPlan, LayoutPlanModel, LengthTarget, LexiconEntry, LexiconEntryModel,
    MusicCue, MusicCueModel, NormalizedRect, VideoProjectManifest, VideoProjectManifestModel,
};
use crate::manifest_rules::empty_project;
use crate::model::{collect_names, names, Model};
use crate::rules::{
    identifier_fault, nonempty_fault, timestamp_fault, validate_identifier, validate_nonempty,
    validate_timestamp_text,
};
use crate::time::{Microseconds, RationalFrameRate, Validate};
use crate::validate::{style_fault, CaptionPresetId, MAX_TIMELINE_DURATION_US};
use vstd::prelude::*;

verus! {

pub const MAX_SHOW_FORMATS: usize = 64;

pub const MAX_SHOW_NOTES_STYLE_BYTES: usize = 2_000;

/// A fifth either side: a thirty-second show may run twenty-four to thirty-six.
pub const DEFAULT_DURATION_TOLERANCE_BP: u32 = 2_000;

// ---------------------------------------------------------------------------------------------
// Cue templates
// ---------------------------------------------------------------------------------------------
/// A cue the format supplies for every episode, before there is a script to anchor it to.
///
/// The anchor is deliberately absent: an opening belongs to whatever the first line turns out to
/// be, and a closing to whatever the last one is. Both are resolved when the episode has a script.
#[derive(Clone, Debug, PartialEq, Eq)]
pub struct CueTemplate {
    pub id: String,
    pub role: CueRole,
    pub target_duration_us: Microseconds,
    pub direction: String,
    pub gain_db_milli: i32,
    pub fade_in_us: Microseconds,
    pub fade_out_us: Microseconds,
}

/// What a [`CueTemplate`] holds, as mathematical values.
pub struct CueTemplateModel {
    pub id: Seq<char>,
    pub role: CueRole,
    pub target_duration_us: Microseconds,
    pub direction: Seq<char>,
    pub gain_db_milli: i32,
    pub fade_in_us: Microseconds,
    pub fade_out_us: Microseconds,
}

impl DeepView for CueTemplate {
    type V = CueTemplateModel;

    open spec fn deep_view(&self) -> CueTemplateModel {
        CueTemplateModel {
            id: self.id@,
            role: self.role,
            target_duration_us: self.target_duration_us,
            direction: self.direction@,
            gain_db_milli: self.gain_db_milli,
            fade_in_us: self.fade_in_us,
            fade_out_us: self.fade_out_us,
        }
    }
}

/// The cue that a template becomes against a written script.
pub open spec fn cue_of(template: CueTemplateModel, anchor: CueAnchorModel, created_at: Seq<char>) -> MusicCueModel {
    MusicCueModel {
        id: template.id,
        role: template.role,
        anchor,
        target_duration_us: template.target_duration_us,
        direction: template.direction,
        source_asset_id: None,
        track_id: None,
        gain_db_milli: template.gain_db_milli,
        fade_in_us: template.fade_in_us,
        fade_out_us: template.fade_out_us,
        created_at,
    }
}

/// A stand-in anchor, which proves a template's own values usable before any episode exists.
pub open spec fn probe_anchor(role: CueRole) -> CueAnchorModel {
    match role {
        CueRole::Outro => CueAnchorModel::AfterFinalTurn,
        _ => CueAnchorModel::Turn { turn_id: "template-probe"@ },
    }
}

impl CueTemplate {
    /// Turns this template into a real cue against a written script.
    pub fn materialize(&self, anchor: CueAnchor, created_at: &str) -> (result: VideoResult<MusicCue>)
        ensures
            refusal(result) == MusicCue::fault_of(
                cue_of(self.deep_view(), anchor.deep_view(), created_at@),
            ),
            result matches Ok(cue) ==> cue.deep_view() == cue_of(
                self.deep_view(),
                anchor.deep_view(),
                created_at@,
            ),
    {
        let cue = MusicCue {
            id: self.id.clone(),
            role: self.role,
            anchor,
            target_duration_us: self.target_duration_us,
            direction: self.direction.clone(),
            source_asset_id: None,
            track_id: None,
            gain_db_milli: self.gain_db_milli,
            fade_in_us: self.fade_in_us,
            fade_out_us: self.fade_out_us,
            created_at: created_at.to_owned(),
        };
        cue.validate()?;
        Ok(cue)
    }
}

impl Validate for CueTemplate {
    open spec fn fault_of(model: CueTemplateModel) -> Option<Fault> {
        or_else(
            identifier_fault(model.id, "show_format.cue.id"@),
            MusicCue::fault_of(cue_of(model, probe_anchor(model.role), "2000-01-01T00:00:00Z"@)),
        )
    }

    fn validate(&self) -> (result: VideoResult<()>) {
        validate_identifier(self.id.as_str(), "show_format.cue.id")?;
        let anchor: CueAnchor = match self.role {
            CueRole::Outro => CueAnchor::AfterFinalTurn,
            CueRole::Bed => CueAnchor::Turn { turn_id: "template-probe".to_owned() },
            CueRole::Sting => CueAnchor::Turn { turn_id: "template-probe".to_owned() },
        };
        let cue: MusicCue = self.materialize(anchor, "2000-01-01T00:00:00Z")?;
        Ok(())
    }
}

// ---------------------------------------------------------------------------------------------
// Formats
// ---------------------------------------------------------------------------------------------
/// The reusable shape of a series.
#[derive(Clone, Debug, PartialEq, Eq)]
pub struct ShowFormat {
    pub id: String,
    pub name: String,
    /// Bumped on every save. An episode records which revision it inherited from, so provenance
    /// stays exact even as the format keeps evolving.
    pub revision: u32,
    pub cast: Vec<CastMember>,
    pub lexicon: Vec<LexiconEntry>,
    pub caption_preset_id: String,
    pub canvas_mode: CanvasMode,
    pub canvas: CanvasSpec,
    pub frame_rate: RationalFrameRate,
    pub target_lufs_milli: i32,
    pub true_peak_db_milli: i32,
    /// How long an episode of this show is meant to run.
    pub target_duration_us: Microseconds,
    /// Slack either side of the target, in basis points of it. Two thousand is a fifth.
    pub duration_tolerance_bp: u32,
    pub opening: Option<CueTemplate>,
    pub closing: Option<CueTemplate>,
    pub show_notes_style: Option<String>,
    pub created_at: String,
    pub updated_at: String,
}

/// What a [`ShowFormat`] holds, as mathematical values.
pub struct ShowFormatModel {
    pub id: Seq<char>,
    pub name: Seq<char>,
    pub revision: u32,
    pub cast: Seq<CastMemberModel>,
    pub lexicon: Seq<LexiconEntryModel>,
    pub caption_preset_id: Seq<char>,
    pub canvas_mode: CanvasMode,
    pub canvas: CanvasSpec,
    pub frame_rate: RationalFrameRate,
    pub target_lufs_milli: i32,
    pub true_peak_db_milli: i32,
    pub target_duration_us: Microseconds,
    pub duration_tolerance_bp: u32,
    pub opening: Option<CueTemplateModel>,
    pub closing: Option<CueTemplateModel>,
    pub show_notes_style: Option<Seq<char>>,
    pub created_at: Seq<char>,
    pub updated_at: Seq<char>,
}

impl DeepView for ShowFormat {
    type V = ShowFormatModel;

    open spec fn deep_view(&self) -> ShowFormatModel {
        ShowFormatModel {
            id: self.id@,
            name: self.name@,
            revision: self.revision,
            cast: self.cast.deep_view(),
            lexicon: self.lexicon.deep_view(),
            caption_preset_id: self.caption_preset_id@,
            canvas_mode: self.canvas_mode,
            canvas: self.canvas,
            frame_rate: self.frame_rate,
            target_lufs_milli: self.target_lufs_milli,
            true_peak_db_milli: self.true_peak_db_milli,
            target_duration_us: self.target_duration_us,
            duration_tolerance_bp: self.duration_tolerance_bp,
            opening: self.opening.deep_view(),
            closing: self.closing.deep_view(),
            show_notes_style: self.show_notes_style.deep_view(),
            created_at: self.created_at@,
            updated_at: self.updated_at@,
        }
    }
}

impl Validate for LengthTarget {
    open spec fn fault_of(model: LengthTarget) -> Option<Fault> {
        unless(
            1 <= model.target_us.0 <= MAX_TIMELINE_DURATION_US,
            fault_at(
                VideoErrorCode::InvalidShowFormat,
                "an episode target length must be positive and no greater than six hours"@,
                "show_format.target_duration_us"@,
            ),
        )
    }

    fn validate(&self) -> (result: VideoResult<()>) {
        if self.target_us.0 < 1 || self.target_us.0 > MAX_TIMELINE_DURATION_US {
            return Err(
                refuse(
                    VideoErrorCode::InvalidShowFormat,
                    "an episode target length must be positive and no greater than six hours",
                    "show_format.target_duration_us",
                ),
            );
        }
        Ok(())
    }
}

/// The mix that an episode of a format starts with.
pub open spec fn mix_of(format: ShowFormatModel) -> AudioMixModel {
    AudioMixModel {
        target_lufs_milli: format.target_lufs_milli,
        true_peak_db_milli: format.true_peak_db_milli,
        tracks: Seq::empty(),
    }
}

pub open spec fn length_of(format: ShowFormatModel) -> LengthTarget {
    LengthTarget { target_us: format.target_duration_us, tolerance_bp: format.duration_tolerance_bp }
}

/// The rules on an opening or a closing: an opening that resolves after the last line, or a closing
/// that opens the show, would be silently repositioned at instantiation.
pub open spec fn template_fault(template: Option<CueTemplateModel>, outro: bool, field: Seq<char>) -> Option<Fault> {
    match template {
        Some(cue) => or_else(
            CueTemplate::fault_of(cue),
            unless(
                (cue.role == CueRole::Outro) == outro,
                fault_at(
                    VideoErrorCode::InvalidShowFormat,
                    "an opening cue cannot be an outro, and a closing cue must be"@,
                    field,
                ),
            ),
        ),
        None => None,
    }
}

fn check_template(template: &Option<CueTemplate>, outro: bool, field: &str) -> (result: VideoResult<()>)
    ensures
        refusal(result) == template_fault(template.deep_view(), outro, field@),
{
    if let Some(cue) = template {
        cue.validate()?;
        if (cue.role == CueRole::Outro) != outro {
            return Err(
                refuse(
                    VideoErrorCode::InvalidShowFormat,
                    "an opening cue cannot be an outro, and a closing cue must be",
                    field,
                ),
            );
        }
    }
    Ok(())
}

pub open spec fn notes_style_fault(style: Option<Seq<char>>) -> Option<Fault> {
    match style {
        Some(text) => nonempty_fault(
            text,
            "show_format.show_notes_style"@,
            MAX_SHOW_NOTES_STYLE_BYTES as int,
        ),
        None => None,
    }
}

impl Validate for ShowFormat {
    open spec fn fault_of(model: ShowFormatModel) -> Option<Fault> {
        or_else(
            identifier_fault(model.id, "show_format.id"@),
            or_else(
                LengthTarget::fault_of(length_of(model)),
                or_else(
                    nonempty_fault(model.name, "show_format.name"@, 256),
                    or_else(
                        style_fault(model.caption_preset_id),
                        or_else(
                            CanvasSpec::fault_of(model.canvas),
                            or_else(
                                RationalFrameRate::fault_of(model.frame_rate),
                                or_else(
                                    cast_fault_from(model.cast, 0),
                                    or_else(
                                        lexicon_fault(model.lexicon, names::<CastMember>(model.cast)),
                                        or_else(
                                            AudioMix::fault_of(mix_of(model)),
                                            or_else(
                                                template_fault(model.opening, false, "show_format.opening"@),
                                                or_else(
                                                    template_fault(
                                                        model.closing,
                                                        true,
                                                        "show_format.closing"@,
                                                    ),
                                                    or_else(
                                                        notes_style_fault(model.show_notes_style),
                                                        or_else(
                                                            timestamp_fault(
                                                                model.created_at,
                                                                "show_format.created_at"@,
                                                            ),
                                                            timestamp_fault(
                                                                model.updated_at,
                                                                "show_format.updated_at"@,
                                                            ),
                                                        ),
                                                    ),
                                                ),
                                            ),
                                        ),
                                    ),
                                ),
                            ),
                        ),
                    ),
                ),
            ),
        )
    }

    fn validate(&self) -> (result: VideoResult<()>) {
        validate_identifier(self.id.as_str(), "show_format.id")?;
        let length = LengthTarget {
            target_us: self.target_duration_us,
            tolerance_bp: self.duration_tolerance_bp,
        };
        length.validate()?;
        validate_nonempty(self.name.as_str(), "show_format.name", 256)?;
        CaptionPresetId::parse(self.caption_preset_id.as_str())?;
        self.canvas.validate()?;
        self.frame_rate.validate()?;
        let cast: &[CastMember] = self.cast.as_slice();
        assert(cast.deep_view() =~= self.cast.deep_view());
        index_cast_by_name(cast)?;
        let cast_ids: Vec<String> = collect_names(&self.cast);
        validate_lexicon(&self.lexicon, &cast_ids)?;
        // The mix targets are validated by building the mix an episode would actually inherit, so a
        // format cannot store a loudness target the renderer would later reject.
        let mix = AudioMix {
            target_lufs_milli: self.target_lufs_milli,
            true_peak_db_milli: self.true_peak_db_milli,
            tracks: Vec::new(),
        };
        assert(mix.deep_view().tracks =~= Seq::empty());
        mix.validate()?;
        check_template(&self.opening, false, "show_format.opening")?;
        check_template(&self.closing, true, "show_format.closing")?;
        if let Some(style) = &self.show_notes_style {
            validate_nonempty(
                style.as_str(),
                "show_format.show_notes_style",
                MAX_SHOW_NOTES_STYLE_BYTES,
            )?;
        }
        validate_timestamp_text(self.created_at.as_str(), "show_format.created_at")?;
        validate_timestamp_text(self.updated_at.as_str(), "show_format.updated_at")
    }
}

impl Validate for FormatOrigin {
    open spec fn fault_of(model: FormatOriginModel) -> Option<Fault> {
        or_else(
            identifier_fault(model.format_id, "format_origin.format_id"@),
            or_else(
                nonempty_fault(model.format_name, "format_origin.format_name"@, 256),
                timestamp_fault(model.instantiated_at, "format_origin.instantiated_at"@),
            ),
        )
    }

    fn validate(&self) -> (result: VideoResult<()>) {
        validate_identifier(self.format_id.as_str(), "format_origin.format_id")?;
        validate_nonempty(self.format_name.as_str(), "format_origin.format_name", 256)?;
        validate_timestamp_text(self.instantiated_at.as_str(), "format_origin.instantiated_at")
    }
}

// ---------------------------------------------------------------------------------------------
// Episodes
// ---------------------------------------------------------------------------------------------
/// The canvas that an episode of a format starts with.
pub open spec fn layout_of(format: ShowFormatModel) -> LayoutPlanModel {
    LayoutPlanModel {
        mode: format.canvas_mode,
        canvas: format.canvas,
        safe_area: NormalizedRect { x_bp: 500, y_bp: 500, width_bp: 9_000, height_bp: 9_000 },
        background_rgba: seq![0u8, 0u8, 0u8, 255u8],
        elements: Seq::empty(),
    }
}

/// The project that an episode starts from, before anything is inherited.
pub open spec fn bare_episode(
    format: ShowFormatModel,
    project_id: Seq<char>,
    episode_name: Seq<char>,
    created_at: Seq<char>,
) -> VideoProjectManifestModel {
    empty_project(
        project_id,
        episode_name,
        format.frame_rate,
        format.target_duration_us,
        layout_of(format),
        mix_of(format),
        created_at,
    )
}

/// A new episode of a show: a pristine draft that has inherited the show's decisions.
pub open spec fn episode_of(
    format: ShowFormatModel,
    project_id: Seq<char>,
    episode_name: Seq<char>,
    created_at: Seq<char>,
) -> VideoProjectManifestModel {
    VideoProjectManifestModel {
        cast: format.cast,
        lexicon: format.lexicon,
        length_target: Some(length_of(format)),
        format_origin: Some(
            FormatOriginModel {
                format_id: format.id,
                format_name: format.name,
                format_revision: format.revision,
                instantiated_at: created_at,
            },
        ),
        ..bare_episode(format, project_id, episode_name, created_at)
    }
}

pub open spec fn episode_fault(
    format: ShowFormatModel,
    project_id: Seq<char>,
    episode_name: Seq<char>,
    created_at: Seq<char>,
) -> Option<Fault> {
    or_else(
        ShowFormat::fault_of(format),
        or_else(
            VideoProjectManifest::fault_of(bare_episode(format, project_id, episode_name, created_at)),
            VideoProjectManifest::fault_of(episode_of(format, project_id, episode_name, created_at)),
        ),
    )
}

/// Builds the starting manifest for a new episode of this show.
///
/// The result is a pristine draft: cast, pronunciation, canvas, and mix are inherited, and nothing
/// else exists yet. Cues are deliberately absent, because an opening and a closing need a script to
/// anchor to; [`materialize_format_cues`] adds them once one is written.
pub fn instantiate_format(format: &ShowFormat, project_id: &str, episode_name: &str, created_at: &str) -> (result: VideoResult<
    VideoProjectManifest,
>)
    ensures
        refusal(result) == episode_fault(format.deep_view(), project_id@, episode_name@, created_at@),
        result matches Ok(episode) ==> episode.deep_view() == episode_of(
            format.deep_view(),
            project_id@,
            episode_name@,
            created_at@,
        ),
{
    format.validate()?;
    let layout = LayoutPlan {
        mode: format.canvas_mode,
        canvas: format.canvas,
        safe_area: NormalizedRect { x_bp: 500, y_bp: 500, width_bp: 9_000, height_bp: 9_000 },
        background_rgba: [0, 0, 0, 255],
        elements: Vec::new(),
    };
    assert(layout.deep_view().elements =~= Seq::empty());
    assert(layout.deep_view().background_rgba =~= seq![0u8, 0u8, 0u8, 255u8]);
    let mix = AudioMix {
        target_lufs_milli: format.target_lufs_milli,
        true_peak_db_milli: format.true_peak_db_milli,
        tracks: Vec::new(),
    };
    assert(mix.deep_view().tracks =~= Seq::empty());
    let bare: VideoProjectManifest = VideoProjectManifest::new(
        project_id,
        episode_name,
        format.frame_rate,
        format.target_duration_us,
        layout,
        mix,
        created_at,
    )?;
    let episode = VideoProjectManifest {
        cast: format.cast.duplicate(),
        lexicon: format.lexicon.duplicate(),
        length_target: Some(
            LengthTarget {
                target_us: format.target_duration_us,
                tolerance_bp: format.duration_tolerance_bp,
            },
        ),
        format_origin: Some(
            FormatOrigin {
                format_id: format.id.clone(),
                format_name: format.name.clone(),
                format_revision: format.revision,
                instantiated_at: created_at.to_owned(),
            },
        ),
        ..bare
    };
    episode.validate_strict()?;
    Ok(episode)
}

/// The cues that an opening and a closing become against a written script.
pub open spec fn format_cues(
    m: VideoProjectManifestModel,
    opening: Option<CueTemplateModel>,
    closing: Option<CueTemplateModel>,
    created_at: Seq<char>,
) -> Seq<MusicCueModel> {
    if m.dialogue.len() == 0 {
        Seq::empty()
    } else {
        (match opening {
            Some(cue) => seq![
                cue_of(cue, CueAnchorModel::Turn { turn_id: m.dialogue[0].id }, created_at),
            ],
            None => Seq::empty(),
        }) + (match closing {
            Some(cue) => seq![cue_of(cue, CueAnchorModel::AfterFinalTurn, created_at)],
            None => Seq::empty(),
        })
    }
}

/// The first refusal among some cues.
pub open spec fn cues_fault_from(cues: Seq<MusicCueModel>, index: int) -> Option<Fault>
    decreases cues.len() - index,
{
    if index < 0 || index >= cues.len() {
        None
    } else {
        or_else(MusicCue::fault_of(cues[index]), cues_fault_from(cues, index + 1))
    }
}

/// Resolves the format's opening and closing against a written script.
///
/// Returns the cues to add. An episode with no script gets none: there is nothing for an opening to
/// begin on or a closing to resolve after, and inventing an anchor would place music at a moment
/// the writer never chose.
pub fn materialize_format_cues(
    manifest: &VideoProjectManifest,
    opening: Option<&CueTemplate>,
    closing: Option<&CueTemplate>,
    created_at: &str,
) -> (result: VideoResult<Vec<MusicCue>>)
    ensures
        refusal(result) == cues_fault_from(
            format_cues(manifest.deep_view(), opening.deep_view(), closing.deep_view(), created_at@),
            0,
        ),
        result matches Ok(cues) ==> cues.deep_view() == format_cues(
            manifest.deep_view(),
            opening.deep_view(),
            closing.deep_view(),
            created_at@,
        ),
{
    let ghost m = manifest.deep_view();
    let ghost expected = format_cues(m, opening.deep_view(), closing.deep_view(), created_at@);
    assert(m.dialogue.len() == manifest.dialogue.len());
    let mut cues: Vec<MusicCue> = Vec::new();
    if manifest.dialogue.len() == 0 {
        assert(cues.deep_view() =~= expected);
        return Ok(cues);
    }
    assert(m.dialogue[0] == manifest.dialogue[0].deep_view());
    proof {
        reveal_with_fuel(cues_fault_from, 3);
    }
    if let Some(template) = opening {
        let ghost first = cue_of(
            template.deep_view(),
            CueAnchorModel::Turn { turn_id: m.dialogue[0].id },
            created_at@,
        );
        assert(expected[0] == first);
        let cue: MusicCue = template.materialize(
            CueAnchor::Turn { turn_id: manifest.dialogue[0].id.clone() },
            created_at,
        )?;
        cues.push(cue);
        assert(cues.deep_view() =~= seq![first]);
    } else {
        assert(cues.deep_view() =~= Seq::empty());
    }
    let ghost so_far = cues.deep_view();
    if let Some(template) = closing {
        let ghost last = cue_of(template.deep_view(), CueAnchorModel::AfterFinalTurn, created_at@);
        assert(expected[so_far.len() as int] == last);
        let cue: MusicCue = template.materialize(CueAnchor::AfterFinalTurn, created_at)?;
        cues.push(cue);
        assert(cues.deep_view() =~= so_far.push(last));
    }
    assert(cues.deep_view() =~= expected);
    Ok(cues)
}

/// Editing a format cannot reach an episode that already exists: an episode is made of the values
/// the format had, and names the revision that had them.
pub proof fn an_episode_names_the_revision_it_copied(
    format: ShowFormatModel,
    project_id: Seq<char>,
    episode_name: Seq<char>,
    created_at: Seq<char>,
)
    ensures
        ({
            let episode = episode_of(format, project_id, episode_name, created_at);
            &&& episode.cast == format.cast
            &&& episode.lexicon == format.lexicon
            &&& episode.audio_mix == mix_of(format)
            &&& episode.layout == layout_of(format)
            &&& episode.format_origin->0.format_id == format.id
            &&& episode.format_origin->0.format_revision == format.revision
            &&& episode.dialogue.len() == 0
            &&& episode.music_cues.len() == 0
            &&& episode.source_assets.len() == 0
        }),
{
}

/// The music of a format opens with the first line and closes after the last: an opening is anchored to the first
/// turn of the script and a closing after the final one, each with the values of its template and no music yet. A
/// script without a line gets none.
pub proof fn a_show_opens_with_its_first_line(
    m: VideoProjectManifestModel,
    opening: Option<CueTemplateModel>,
    closing: Option<CueTemplateModel>,
    created_at: Seq<char>,
)
    ensures
        ({
            let cues = format_cues(m, opening, closing, created_at);
            let wanted: int = (if opening is Some { 1int } else { 0 }) + (if closing is Some { 1int } else { 0 });
            &&& m.dialogue.len() == 0 ==> cues.len() == 0
            &&& m.dialogue.len() > 0 ==> {
                &&& cues.len() == wanted
                &&& opening matches Some(template) ==> {
                    &&& cues[0].anchor == CueAnchorModel::Turn { turn_id: m.dialogue[0].id }
                    &&& is_made_of(cues[0], template)
                }
                &&& closing matches Some(template) ==> {
                    &&& cues.last().anchor == CueAnchorModel::AfterFinalTurn
                    &&& is_made_of(cues.last(), template)
                }
            }
            &&& forall|i: int|
                0 <= i < cues.len() ==> (#[trigger] cues[i]).source_asset_id is None && cues[i].track_id is None
                    && cues[i].created_at == created_at
        }),
{
}

/// Whether a cue has the values of a template.
pub open spec fn is_made_of(cue: MusicCueModel, template: CueTemplateModel) -> bool {
    &&& cue.id == template.id
    &&& cue.role == template.role
    &&& cue.target_duration_us == template.target_duration_us
    &&& cue.direction == template.direction
    &&& cue.gain_db_milli == template.gain_db_milli
    &&& cue.fade_in_us == template.fade_in_us
    &&& cue.fade_out_us == template.fade_out_us
}

/// An episode starts with the canvas, the frame rate, the loudness and the length that its format asks for.
pub proof fn an_episode_starts_as_its_format_asks(
    format: ShowFormatModel,
    project_id: Seq<char>,
    episode_name: Seq<char>,
    created_at: Seq<char>,
)
    ensures
        ({
            let episode = episode_of(format, project_id, episode_name, created_at);
            &&& episode.project_id == project_id
            &&& episode.frame_rate == format.frame_rate
            &&& episode.timeline_duration_us == format.target_duration_us
            &&& episode.layout.mode == format.canvas_mode
            &&& episode.layout.canvas == format.canvas
            &&& episode.layout.elements.len() == 0
            &&& episode.audio_mix.target_lufs_milli == format.target_lufs_milli
            &&& episode.audio_mix.true_peak_db_milli == format.true_peak_db_milli
            &&& episode.audio_mix.tracks.len() == 0
            &&& episode.length_target is Some
            &&& episode.length_target->0.target_us == format.target_duration_us
            &&& episode.length_target->0.tolerance_bp == format.duration_tolerance_bp
            &&& episode.format_origin is Some
            &&& episode.format_origin->0.format_name == format.name
            &&& episode.format_origin->0.instantiated_at == created_at
            &&& episode.created_at == created_at
        }),
{
}

/// An accepted format opens with no outro and closes with nothing else.
pub proof fn an_accepted_show_closes_with_an_outro(format: ShowFormatModel)
    requires
        ShowFormat::fault_of(format) is None,
    ensures
        format.opening matches Some(cue) ==> cue.role != CueRole::Outro,
        format.closing matches Some(cue) ==> cue.role == CueRole::Outro,
{
}

} // verus!
