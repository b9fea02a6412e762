//! Applying a cast and a written script to a project.
//!
//! The promise this module has to keep is narrow and load-bearing: rewriting one line of a script
//! must re-read one line.
//!
//! A turn's identity is its content, not its position. When a script is re-applied, every turn
//! whose character and words are unchanged keeps the identifier it already had, so the narration
//! take bound to it stays valid. Only a turn whose words actually changed is minted fresh, and
//! only that turn's take is dropped.

use crate::cast::{
    parse_dialogue_script, parsed_script, parsed_turns_are_speakable, ParsedTurn, ParsedTurnModel, MAX_DIALOGUE_TURNS,
};
use crate::digest::{sha256_hex, sha256_hex_text};
use crate::editor::{changed_paths, lemma_no_paths, manifest_changed_paths};
use crate::error::{fault_at, or_else, refusal, refuse, unless, Fault, VideoErrorCode, VideoResult};
use crate::manifest::{
    BeatSource, CastMember, CastMemberModel, DialogueTurn, DialogueTurnModel, NarrationBinding,
    NarrationBindingModel, RevisionStage, TimelineClip, TimelineClipModel, TimelineTrack, TimelineTrackModel, TurnBeat,
    TurnBeatModel, VideoProjectManifest, VideoProjectManifestModel,
};
use crate::model::{
    all_are_kept, collect_names, has_name, holds, kept, kept_from, names, place_of, what_is_found_bears_the_name,
    what_is_kept_keeps_its_order, what_is_kept_stays, Model,
};
use crate::rules::{distinct, unique_fault, unique_is_distinct, validate_unique_ids};
use crate::stages::{are_stale, invalidated_stages_for_manifest_changes, PathStages, PathStagesModel};
use crate::text::{chars_of, decimal, decimal_text, padded, padded_text, text_concat3, text_eq, text_of};
use crate::time::{Microseconds, Validate};
use vstd::hash_set::StringHashSet;
use vstd::prelude::*;
use vstd::utf8::encode_utf8;

verus! {

/// The silence, or the overlap, that the script implies before a turn.
#[derive(Clone, Copy, Debug, PartialEq, Eq, Structural)]
pub struct BeatTiming {
    pub lead_in_us: Microseconds,
    pub overlap_us: Microseconds,
}

/// A cast and the script that it speaks.
#[derive(Clone, Debug, PartialEq, Eq)]
pub struct DialogueScriptRequest {
    /// The complete cast for this project. Applying a script replaces the cast wholesale so the
    /// script and the characters who can speak it are always committed together.
    pub cast: Vec<CastMember>,
    pub script: String,
}

// ---------------------------------------------------------------------------------------------
// What a turn is
// ---------------------------------------------------------------------------------------------
/// What makes two turns the same turn: the same character saying the same words. A changed stage
/// direction steers performance without changing the words, so it deliberately does not mint a new
/// turn or discard a valid take.
pub open spec fn identity(character_id: Seq<char>, text: Seq<char>) -> Seq<char> {
    sha256_hex(encode_utf8(character_id + "\u{1}"@ + text))
}

fn turn_identity(character_id: &str, text: &str) -> (digest: String)
    ensures
        digest@ == identity(character_id@, text@),
        digest@.len() == 64,
{
    let content: String = text_concat3(character_id, "\u{1}", text);
    sha256_hex_text(content.as_str().as_bytes())
}

/// The identities of a project's turns.
pub open spec fn identities(dialogue: Seq<DialogueTurnModel>) -> Seq<Seq<char>> {
    Seq::new(dialogue.len(), |i: int| identity(dialogue[i].character_id, dialogue[i].text))
}

/// The identities of a script's turns.
pub open spec fn script_identities(parsed: Seq<ParsedTurnModel>) -> Seq<Seq<char>> {
    Seq::new(parsed.len(), |i: int| identity(parsed[i].character_id, parsed[i].text))
}

/// The first turn from a place on that has an identity and has not been used yet.
pub open spec fn reusable_from(known: Seq<Seq<char>>, used: Seq<bool>, wanted: Seq<char>, index: int) -> Option<int>
    decreases known.len() - index,
{
    if index < 0 || index >= known.len() {
        None
    } else if known[index] == wanted && !used[index] {
        Some(index)
    } else {
        reusable_from(known, used, wanted, index + 1)
    }
}

/// The first name of the form base, hyphen, number that is free, counting from a number on.
pub open spec fn free_name_from(base: Seq<char>, taken: Set<Seq<char>>, number: int) -> Seq<char>
    decreases u32::MAX - number,
{
    if number >= u32::MAX {
        base
    } else if !taken.contains(base + "-"@ + decimal(number as nat)) {
        base + "-"@ + decimal(number as nat)
    } else {
        free_name_from(base, taken, number + 1)
    }
}

/// A content-derived identifier, so that the same script applied twice produces the same project.
pub open spec fn minted_id(order: nat, digest: Seq<char>, taken: Set<Seq<char>>) -> Seq<char> {
    let base = "turn-"@ + padded(order, 4) + "-"@ + digest.take(12);
    if !taken.contains(base) {
        base
    } else {
        free_name_from(base, taken, 1)
    }
}

fn mint_turn_id(order: u32, digest: &str, taken: &StringHashSet) -> (id: String)
    requires
        digest@.len() >= 12,
    ensures
        id@ == minted_id(order as nat, digest@, taken@),
{
    let chars: Vec<char> = chars_of(digest);
    let short: String = text_of(&chars, 0, 12);
    assert(short@ =~= digest@.take(12));
    let mut base: String = String::from_str("turn-");
    let place: String = padded_text(order as u64, 4);
    base.append(place.as_str());
    base.append("-");
    base.append(short.as_str());
    if !taken.contains(base.as_str()) {
        return base;
    }
    // A collision is effectively unreachable, but a duplicate identifier would be a validation
    // failure rather than a wrong answer, so it is resolved deterministically.
    let mut number: u32 = 1;
    while number < u32::MAX
        invariant
            1 <= number <= u32::MAX,
            taken@.contains(base@),
            base@ == "turn-"@ + padded(order as nat, 4) + "-"@ + digest@.take(12),
            free_name_from(base@, taken@, 1) == free_name_from(base@, taken@, number as int),
        decreases u32::MAX - number,
    {
        let suffix: String = decimal_text(number as u64);
        let candidate: String = text_concat3(base.as_str(), "-", suffix.as_str());
        if !taken.contains(candidate.as_str()) {
            return candidate;
        }
        number = number + 1;
    }
    base
}

/// Whether a retained turn changed in any way a reader or a renderer would notice.
pub open spec fn differs_in_content(previous: DialogueTurnModel, next: DialogueTurnModel) -> bool {
    ||| previous.order != next.order
    ||| previous.scene_id != next.scene_id
    ||| previous.direction != next.direction
    ||| previous.source_line != next.source_line
}

/// The turn that a parsed turn becomes, when its words are already in the project.
pub open spec fn retained_turn(previous: DialogueTurnModel, parsed: ParsedTurnModel, order: u32) -> DialogueTurnModel {
    let next = DialogueTurnModel {
        id: previous.id,
        scene_id: previous.scene_id,
        order,
        character_id: parsed.character_id,
        text: parsed.text,
        direction: parsed.direction,
        source_line: parsed.source_line,
        revision: previous.revision,
    };
    // A retained turn advances its revision only when something about it actually changed, so that
    // re-applying an unchanged script is no edit.
    if differs_in_content(previous, next) && previous.revision < u32::MAX {
        DialogueTurnModel { revision: (previous.revision + 1) as u32, ..next }
    } else {
        next
    }
}

/// The turn that a parsed turn becomes, when its words are new.
pub open spec fn fresh_turn(id: Seq<char>, parsed: ParsedTurnModel, order: u32) -> DialogueTurnModel {
    DialogueTurnModel {
        id,
        scene_id: None,
        order,
        character_id: parsed.character_id,
        text: parsed.text,
        direction: parsed.direction,
        source_line: parsed.source_line,
        revision: 1,
    }
}

fn retain_turn(previous: &DialogueTurn, parsed: &ParsedTurn, order: u32) -> (turn: DialogueTurn)
    ensures
        turn.deep_view() == retained_turn(previous.deep_view(), parsed.deep_view(), order),
{
    let differs: bool = previous.order != order || !previous.direction.same(&parsed.direction)
        || previous.source_line != parsed.source_line;
    let revision: u32 = if differs && previous.revision < u32::MAX {
        previous.revision + 1
    } else {
        previous.revision
    };
    DialogueTurn {
        id: previous.id.clone(),
        scene_id: previous.scene_id.duplicate(),
        order,
        character_id: parsed.character_id.clone(),
        text: parsed.text.clone(),
        direction: parsed.direction.duplicate(),
        source_line: parsed.source_line,
        revision,
    }
}

// ---------------------------------------------------------------------------------------------
// Weaving a script into the turns a project has
// ---------------------------------------------------------------------------------------------
/// How far a script has been woven in.
pub struct Weave {
    pub turns: Vec<DialogueTurn>,
    pub used: Vec<bool>,
    pub retained: Vec<String>,
    pub minted: Vec<String>,
    pub taken: StringHashSet,
}

/// What a [`Weave`] holds, as mathematical values.
pub struct WeaveModel {
    pub turns: Seq<DialogueTurnModel>,
    pub used: Seq<bool>,
    pub retained: Seq<Seq<char>>,
    pub minted: Seq<Seq<char>>,
    pub taken: Set<Seq<char>>,
}

impl DeepView for Weave {
    type V = WeaveModel;

    open spec fn deep_view(&self) -> WeaveModel {
        WeaveModel {
            turns: self.turns.deep_view(),
            used: self.used@,
            retained: self.retained.deep_view(),
            minted: self.minted.deep_view(),
            taken: self.taken@,
        }
    }
}

pub open spec fn nothing_woven(count: nat) -> WeaveModel {
    WeaveModel {
        turns: Seq::empty(),
        used: Seq::new(count, |i: int| false),
        retained: Seq::empty(),
        minted: Seq::empty(),
        taken: Set::empty(),
    }
}

/// The weave with one more turn, before the turn is checked.
pub open spec fn woven(
    dialogue: Seq<DialogueTurnModel>,
    weave: WeaveModel,
    parsed: ParsedTurnModel,
    order: u32,
) -> WeaveModel {
    let digest = identity(parsed.character_id, parsed.text);
    match reusable_from(identities(dialogue), weave.used, digest, 0) {
        Some(place) => WeaveModel {
            turns: weave.turns.push(retained_turn(dialogue[place], parsed, order)),
            used: weave.used.update(place, true),
            retained: weave.retained.push(dialogue[place].id),
            minted: weave.minted,
            taken: weave.taken.insert(dialogue[place].id),
        },
        None => {
            let id = minted_id(order as nat, digest, weave.taken);
            WeaveModel {
                turns: weave.turns.push(fresh_turn(id, parsed, order)),
                used: weave.used,
                retained: weave.retained,
                minted: weave.minted.push(id),
                taken: weave.taken.insert(id),
            }
        },
    }
}

/// The weave once the first turns of a script have been woven in.
pub open spec fn woven_after(dialogue: Seq<DialogueTurnModel>, parsed: Seq<ParsedTurnModel>, count: int) -> WeaveModel
    decreases count,
{
    if count <= 0 {
        nothing_woven(dialogue.len())
    } else {
        woven(dialogue, woven_after(dialogue, parsed, count - 1), parsed[count - 1], (count - 1) as u32)
    }
}

/// The first refusal of a woven turn, from one on.
pub open spec fn weave_fault_from(dialogue: Seq<DialogueTurnModel>, parsed: Seq<ParsedTurnModel>, index: int) -> Option<
    Fault,
>
    decreases parsed.len() - index,
{
    if index < 0 || index >= parsed.len() {
        None
    } else {
        or_else(
            DialogueTurn::fault_of(woven_after(dialogue, parsed, index + 1).turns.last()),
            weave_fault_from(dialogue, parsed, index + 1),
        )
    }
}

/// The project's turns once a script has been woven in.
pub open spec fn woven_script(dialogue: Seq<DialogueTurnModel>, parsed: Seq<ParsedTurnModel>) -> WeaveModel {
    woven_after(dialogue, parsed, parsed.len() as int)
}

fn find_reusable(known: &Vec<String>, used: &Vec<bool>, wanted: &str) -> (result: Option<usize>)
    requires
        used.len() == known.len(),
    ensures
        match result {
            Some(place) => place < known.len() && reusable_from(known.deep_view(), used@, wanted@, 0) == Some(
                place as int,
            ),
            None => reusable_from(known.deep_view(), used@, wanted@, 0) is None,
        },
{
    let ghost model = known.deep_view();
    let mut index: usize = 0;
    while index < known.len()
        invariant
            index <= known.len(),
            used.len() == known.len(),
            model == known.deep_view(),
            reusable_from(model, used@, wanted@, 0) == reusable_from(model, used@, wanted@, index as int),
        decreases known.len() - index,
    {
        assert(model[index as int] == known[index as int]@);
        if !used[index] && text_eq(known[index].as_str(), wanted) {
            return Some(index);
        }
        index += 1;
    }
    None
}

fn collect_identities(dialogue: &Vec<DialogueTurn>) -> (known: Vec<String>)
    ensures
        known.deep_view() == identities(dialogue.deep_view()),
{
    let mut known: Vec<String> = Vec::new();
    let mut index: usize = 0;
    while index < dialogue.len()
        invariant
            index <= dialogue.len(),
            known.len() == index,
            forall|i: int|
                0 <= i < index ==> (#[trigger] known[i])@ == identity(dialogue[i].character_id@, dialogue[i].text@),
        decreases dialogue.len() - index,
    {
        known.push(
            turn_identity(dialogue[index].character_id.as_str(), dialogue[index].text.as_str()),
        );
        index += 1;
    }
    assert(known.deep_view() =~= identities(dialogue.deep_view()));
    known
}

fn weave_turn(
    dialogue: &Vec<DialogueTurn>,
    known: &Vec<String>,
    weave: Weave,
    parsed: &ParsedTurn,
    order: u32,
) -> (result: Weave)
    requires
        known.deep_view() == identities(dialogue.deep_view()),
        weave.used.len() == dialogue.len(),
    ensures
        result.deep_view() == woven(dialogue.deep_view(), weave.deep_view(), parsed.deep_view(), order),
        result.used.len() == dialogue.len(),
        result.turns.len() == weave.turns.len() + 1,
{
    let ghost before = weave.deep_view();
    assert(known.deep_view().len() == known.len());
    assert(dialogue.deep_view().len() == dialogue.len());
    let Weave { turns, used, retained, minted, taken } = weave;
    let mut turns: Vec<DialogueTurn> = turns;
    let mut used: Vec<bool> = used;
    let mut retained: Vec<String> = retained;
    let mut minted: Vec<String> = minted;
    let mut taken: StringHashSet = taken;
    let digest: String = turn_identity(parsed.character_id.as_str(), parsed.text.as_str());
    match find_reusable(known, &used, digest.as_str()) {
        Some(place) => {
            let previous: &DialogueTurn = &dialogue[place];
            assert(dialogue.deep_view()[place as int] == previous.deep_view());
            let turn: DialogueTurn = retain_turn(previous, parsed, order);
            let ghost turn_model = turn.deep_view();
            turns.push(turn);
            assert(turns.deep_view() =~= before.turns.push(turn_model));
            used.set(place, true);
            retained.push(previous.id.clone());
            assert(retained.deep_view() =~= before.retained.push(previous.id@));
            taken.insert(previous.id.clone());
        },
        None => {
            let id: String = mint_turn_id(order, digest.as_str(), &taken);
            let turn = DialogueTurn {
                id: id.clone(),
                scene_id: None,
                order,
                character_id: parsed.character_id.clone(),
                text: parsed.text.clone(),
                direction: parsed.direction.duplicate(),
                source_line: parsed.source_line,
                revision: 1,
            };
            let ghost turn_model = turn.deep_view();
            turns.push(turn);
            assert(turns.deep_view() =~= before.turns.push(turn_model));
            minted.push(id.clone());
            assert(minted.deep_view() =~= before.minted.push(id@));
            taken.insert(id);
        },
    }
    Weave { turns, used, retained, minted, taken }
}

fn weave_script(dialogue: &Vec<DialogueTurn>, parsed: &Vec<ParsedTurn>) -> (result: VideoResult<Weave>)
    requires
        parsed.len() <= u32::MAX,
    ensures
        refusal(result) == weave_fault_from(dialogue.deep_view(), parsed.deep_view(), 0),
        result matches Ok(weave) ==> weave.deep_view() == woven_script(dialogue.deep_view(), parsed.deep_view()),
{
    let ghost d = dialogue.deep_view();
    let ghost p = parsed.deep_view();
    let known: Vec<String> = collect_identities(dialogue);
    let mut used: Vec<bool> = Vec::new();
    while used.len() < dialogue.len()
        invariant
            used.len() <= dialogue.len(),
            forall|i: int| 0 <= i < used.len() ==> !used[i],
        decreases dialogue.len() - used.len(),
    {
        used.push(false);
    }
    let mut weave = Weave {
        turns: Vec::new(),
        used,
        retained: Vec::new(),
        minted: Vec::new(),
        taken: StringHashSet::new(),
    };
    assert(weave.deep_view().turns =~= Seq::empty());
    assert(weave.deep_view().retained =~= Seq::empty());
    assert(weave.deep_view().minted =~= Seq::empty());
    assert(weave.deep_view().taken =~= Set::empty());
    assert(weave.deep_view().used =~= nothing_woven(d.len()).used);
    let mut index: usize = 0;
    while index < parsed.len()
        invariant
            index <= parsed.len() <= u32::MAX,
            d == dialogue.deep_view(),
            p == parsed.deep_view(),
            known.deep_view() == identities(d),
            weave.used.len() == dialogue.len(),
            weave.turns.len() == index,
            weave.deep_view() == woven_after(d, p, index as int),
            weave_fault_from(d, p, 0) == weave_fault_from(d, p, index as int),
        decreases parsed.len() - index,
    {
        assert(p[index as int] == parsed[index as int].deep_view());
        let next: Weave = weave_turn(dialogue, &known, weave, &parsed[index], index as u32);
        assert(next.deep_view() == woven_after(d, p, index + 1));
        assert(next.turns.deep_view().last() == next.turns[index as int].deep_view());
        next.turns[index].validate()?;
        weave = next;
        index += 1;
    }
    Ok(weave)
}

// ---------------------------------------------------------------------------------------------
// What follows from the turns that survive
// ---------------------------------------------------------------------------------------------
/// Whether a take's turn is still in the script. A take that belongs to no turn stays.
pub open spec fn take_survives(turns: Seq<DialogueTurnModel>, binding: NarrationBindingModel) -> bool {
    binding.turn_id matches Some(turn_id) ==> holds::<DialogueTurn>(turns, turn_id)
}

pub open spec fn surviving_takes(turns: Seq<DialogueTurnModel>) -> spec_fn(NarrationBindingModel) -> bool {
    |binding: NarrationBindingModel| take_survives(turns, binding)
}

/// The takes from a place on whose turn is gone.
pub open spec fn dropped_from(turns: Seq<DialogueTurnModel>, bindings: Seq<NarrationBindingModel>, index: int) -> Seq<
    Seq<char>,
>
    decreases bindings.len() - index,
{
    if index < 0 || index >= bindings.len() {
        Seq::empty()
    } else if take_survives(turns, bindings[index]) {
        dropped_from(turns, bindings, index + 1)
    } else {
        seq![bindings[index].id] + dropped_from(turns, bindings, index + 1)
    }
}

fn sort_takes(turns: &Vec<DialogueTurn>, bindings: &Vec<NarrationBinding>) -> (result: (Vec<NarrationBinding>, Vec<
    String,
>))
    ensures
        result.0.deep_view() == kept(bindings.deep_view(), surviving_takes(turns.deep_view())),
        result.1.deep_view() == dropped_from(turns.deep_view(), bindings.deep_view(), 0),
{
    let ghost t = turns.deep_view();
    let ghost model = bindings.deep_view();
    let ghost keep = surviving_takes(t);
    let mut left: Vec<NarrationBinding> = Vec::new();
    let mut dropped: Vec<String> = Vec::new();
    let mut index: usize = 0;
    assert(left.deep_view() + kept(model, keep) =~= kept(model, keep));
    assert(dropped.deep_view() + dropped_from(t, model, 0) =~= dropped_from(t, model, 0));
    while index < bindings.len()
        invariant
            index <= bindings.len(),
            t == turns.deep_view(),
            model == bindings.deep_view(),
            keep == surviving_takes(t),
            left.deep_view() + kept_from(model, keep, index as int) == kept(model, keep),
            dropped.deep_view() + dropped_from(t, model, index as int) == dropped_from(t, model, 0),
        decreases bindings.len() - index,
    {
        let binding: &NarrationBinding = &bindings[index];
        let ghost own = model[index as int];
        assert(own == binding.deep_view());
        let survives: bool = match &binding.turn_id {
            Some(turn_id) => has_name(turns, turn_id.as_str()),
            None => true,
        };
        if survives {
            let ghost before = left.deep_view();
            let ghost rest = kept_from(model, keep, index + 1);
            left.push(binding.duplicate());
            assert(left.deep_view() =~= before.push(own));
            assert(left.deep_view() + rest =~= before + (seq![own] + rest));
        } else {
            let ghost before = dropped.deep_view();
            let ghost rest = dropped_from(t, model, index + 1);
            dropped.push(binding.id.clone());
            assert(dropped.deep_view() =~= before.push(own.id));
            assert(dropped.deep_view() + rest =~= before + (seq![own.id] + rest));
        }
        index += 1;
    }
    assert(left.deep_view() =~= kept(model, keep));
    assert(dropped.deep_view() =~= dropped_from(t, model, 0));
    (left, dropped)
}

/// The beat that a writer decided for a turn, looked for from a place on.
pub open spec fn held_beat_from(beats: Seq<TurnBeatModel>, turn_id: Seq<char>, index: int) -> Option<TurnBeatModel>
    decreases beats.len() - index,
{
    if index < 0 || index >= beats.len() {
        None
    } else if beats[index].source == BeatSource::Explicit && beats[index].turn_id == turn_id {
        Some(beats[index])
    } else {
        held_beat_from(beats, turn_id, index + 1)
    }
}

/// The beat before a turn: the writer's where there is one, else the script's.
pub open spec fn beat_of(beats: Seq<TurnBeatModel>, turn: DialogueTurnModel, timing: BeatTiming) -> TurnBeatModel {
    match held_beat_from(beats, turn.id, 0) {
        Some(beat) => beat,
        None => TurnBeatModel {
            turn_id: turn.id,
            lead_in_us: timing.lead_in_us,
            overlap_us: timing.overlap_us,
            source: BeatSource::Derived,
        },
    }
}

pub open spec fn beats_of(beats: Seq<TurnBeatModel>, turns: Seq<DialogueTurnModel>, timings: Seq<BeatTiming>) -> Seq<
    TurnBeatModel,
> {
    Seq::new(turns.len(), |i: int| beat_of(beats, turns[i], timings[i]))
}

fn find_held_beat(beats: &Vec<TurnBeat>, turn_id: &str) -> (result: Option<TurnBeat>)
    ensures
        result.deep_view() == held_beat_from(beats.deep_view(), turn_id@, 0),
{
    let ghost model = beats.deep_view();
    let mut index: usize = 0;
    while index < beats.len()
        invariant
            index <= beats.len(),
            model == beats.deep_view(),
            held_beat_from(model, turn_id@, 0) == held_beat_from(model, turn_id@, index as int),
        decreases beats.len() - index,
    {
        assert(model[index as int] == beats[index as int].deep_view());
        if beats[index].source == BeatSource::Explicit && text_eq(beats[index].turn_id.as_str(), turn_id) {
            return Some(beats[index].duplicate());
        }
        index += 1;
    }
    None
}

fn settle_beats(beats: &Vec<TurnBeat>, turns: &Vec<DialogueTurn>, timings: &Vec<BeatTiming>) -> (result: Vec<TurnBeat>)
    requires
        turns.len() <= timings.len(),
    ensures
        result.deep_view() == beats_of(beats.deep_view(), turns.deep_view(), timings@),
{
    let ghost b = beats.deep_view();
    let ghost t = turns.deep_view();
    let mut result: Vec<TurnBeat> = Vec::new();
    let mut index: usize = 0;
    while index < turns.len()
        invariant
            index <= turns.len() <= timings.len(),
            b == beats.deep_view(),
            t == turns.deep_view(),
            result.len() == index,
            forall|i: int|
                0 <= i < index ==> (#[trigger] result[i]).deep_view() == beat_of(b, t[i], timings@[i]),
        decreases turns.len() - index,
    {
        assert(t[index as int] == turns[index as int].deep_view());
        let beat: TurnBeat = match find_held_beat(beats, turns[index].id.as_str()) {
            Some(held) => held,
            None => TurnBeat {
                turn_id: turns[index].id.clone(),
                lead_in_us: timings[index].lead_in_us,
                overlap_us: timings[index].overlap_us,
                source: BeatSource::Derived,
            },
        };
        result.push(beat);
        index += 1;
    }
    assert(result.deep_view() =~= beats_of(b, t, timings@));
    result
}

/// A clip without its turn, where the turn is gone.
pub open spec fn freed_clip(turns: Seq<DialogueTurnModel>, clip: TimelineClipModel) -> TimelineClipModel {
    if clip.turn_id is Some && !holds::<DialogueTurn>(turns, clip.turn_id->0) {
        TimelineClipModel { turn_id: None, ..clip }
    } else {
        clip
    }
}

pub open spec fn freed_track(turns: Seq<DialogueTurnModel>, track: TimelineTrackModel) -> TimelineTrackModel {
    TimelineTrackModel {
        clips: Seq::new(track.clips.len(), |i: int| freed_clip(turns, track.clips[i])),
        ..track
    }
}

pub open spec fn freed_tracks(turns: Seq<DialogueTurnModel>, tracks: Seq<TimelineTrackModel>) -> Seq<TimelineTrackModel> {
    Seq::new(tracks.len(), |i: int| freed_track(turns, tracks[i]))
}

fn free_clips(turns: &Vec<DialogueTurn>, track: &TimelineTrack) -> (result: TimelineTrack)
    ensures
        result.deep_view() == freed_track(turns.deep_view(), track.deep_view()),
{
    let ghost t = turns.deep_view();
    let ghost model = track.deep_view();
    let mut clips: Vec<TimelineClip> = Vec::new();
    let mut index: usize = 0;
    while index < track.clips.len()
        invariant
            index <= track.clips.len(),
            t == turns.deep_view(),
            model == track.deep_view(),
            clips.len() == index,
            forall|i: int| 0 <= i < index ==> (#[trigger] clips[i]).deep_view() == freed_clip(t, model.clips[i]),
        decreases track.clips.len() - index,
    {
        let clip: &TimelineClip = &track.clips[index];
        assert(model.clips[index as int] == clip.deep_view());
        let gone: bool = match &clip.turn_id {
            Some(turn_id) => !has_name(turns, turn_id.as_str()),
            None => false,
        };
        if gone {
            clips.push(TimelineClip { turn_id: None, ..clip.duplicate() });
        } else {
            clips.push(clip.duplicate());
        }
        index += 1;
    }
    assert(clips.deep_view() =~= freed_track(t, model).clips);
    TimelineTrack {
        id: track.id.clone(),
        kind: track.kind,
        clips,
        preserve_gaps: track.preserve_gaps,
    }
}

fn free_tracks(turns: &Vec<DialogueTurn>, tracks: &Vec<TimelineTrack>) -> (result: Vec<TimelineTrack>)
    ensures
        result.deep_view() == freed_tracks(turns.deep_view(), tracks.deep_view()),
{
    let ghost t = turns.deep_view();
    let ghost model = tracks.deep_view();
    let mut result: Vec<TimelineTrack> = Vec::new();
    let mut index: usize = 0;
    while index < tracks.len()
        invariant
            index <= tracks.len(),
            t == turns.deep_view(),
            model == tracks.deep_view(),
            result.len() == index,
            forall|i: int| 0 <= i < index ==> (#[trigger] result[i]).deep_view() == freed_track(t, model[i]),
        decreases tracks.len() - index,
    {
        assert(model[index as int] == tracks[index as int].deep_view());
        result.push(free_clips(turns, &tracks[index]));
        index += 1;
    }
    assert(result.deep_view() =~= freed_tracks(t, model));
    result
}

// ---------------------------------------------------------------------------------------------
// The script
// ---------------------------------------------------------------------------------------------
/// The project with a cast and woven turns.
pub open spec fn scripted(
    m: VideoProjectManifestModel,
    cast: Seq<CastMemberModel>,
    turns: Seq<DialogueTurnModel>,
    timings: Seq<BeatTiming>,
) -> VideoProjectManifestModel {
    VideoProjectManifestModel {
        cast,
        turn_beats: beats_of(m.turn_beats, turns, timings),
        dialogue: turns,
        narration_bindings: kept(m.narration_bindings, surviving_takes(turns)),
        tracks: freed_tracks(turns, m.tracks),
        ..m
    }
}

/// Why woven turns cannot be settled: each needs a beat and an identifier of its own.
pub open spec fn turns_fault(turns: Seq<DialogueTurnModel>, timings: Seq<BeatTiming>) -> Option<Fault> {
    or_else(
        unless(
            turns.len() <= timings.len(),
            fault_at(
                VideoErrorCode::InvalidPerformance,
                "every turn of the script needs the beat it implies"@,
                "dialogue"@,
            ),
        ),
        unique_fault(names::<DialogueTurn>(turns), "dialogue"@),
    )
}

fn check_turns(turns: &Vec<DialogueTurn>, timings: &Vec<BeatTiming>) -> (result: VideoResult<()>)
    ensures
        refusal(result) == turns_fault(turns.deep_view(), timings@),
{
    assert(turns.deep_view().len() == turns.len());
    if turns.len() > timings.len() {
        return Err(
            refuse(
                VideoErrorCode::InvalidPerformance,
                "every turn of the script needs the beat it implies",
                "dialogue",
            ),
        );
    }
    validate_unique_ids(&collect_names(turns), "dialogue")
}

/// Why woven turns cannot be committed.
pub open spec fn commit_fault(
    m: VideoProjectManifestModel,
    cast: Seq<CastMemberModel>,
    turns: Seq<DialogueTurnModel>,
    timings: Seq<BeatTiming>,
) -> Option<Fault> {
    let after = scripted(m, cast, turns, timings);
    or_else(
        turns_fault(turns, timings),
        or_else(
            VideoProjectManifest::fault_of(after),
            unless(changed_paths(m, after).len() > 0, already_applied()),
        ),
    )
}

/// The refusal of a cast and a script that a project has already.
pub open spec fn already_applied() -> Fault {
    fault_at(
        VideoErrorCode::InvalidRevision,
        "the requested cast and script are already applied to this project"@,
        "script"@,
    )
}

/// Why a cast and a script cannot be applied.
pub open spec fn dialogue_fault(
    m: VideoProjectManifestModel,
    cast: Seq<CastMemberModel>,
    script: Seq<char>,
    timings: Seq<BeatTiming>,
) -> Option<Fault> {
    or_else(
        VideoProjectManifest::fault_of(m),
        match parsed_script(script, cast) {
            Ok(parsed) => or_else(
                weave_fault_from(m.dialogue, parsed, 0),
                commit_fault(m, cast, woven_script(m.dialogue, parsed).turns, timings),
            ),
            Err(refused) => Some(refused),
        },
    )
}

/// A project with its script applied, and what became of its turns and takes.
#[derive(Clone, Debug, PartialEq, Eq)]
pub struct AppliedDialogueScript {
    pub manifest: VideoProjectManifest,
    pub changed_paths: Vec<String>,
    pub invalidated_stages: Vec<RevisionStage>,
    /// Turns whose words survived unchanged, and whose existing takes therefore survive with them.
    pub retained_turn_ids: Vec<String>,
    pub new_turn_ids: Vec<String>,
    /// Takes dropped because the words they were asked to speak no longer exist in the script.
    pub dropped_binding_ids: Vec<String>,
}

/// A project with its turns settled, what that changed, and the takes that were dropped.
struct CommittedScript {
    manifest: VideoProjectManifest,
    changed_paths: Vec<String>,
    dropped_binding_ids: Vec<String>,
}

fn commit_script(
    manifest: &VideoProjectManifest,
    cast: &Vec<CastMember>,
    turns: Vec<DialogueTurn>,
    timings: &Vec<BeatTiming>,
) -> (result: VideoResult<CommittedScript>)
    ensures
        refusal(result) == commit_fault(manifest.deep_view(), cast.deep_view(), turns.deep_view(), timings@),
        result matches Ok(committed) ==> {
            let m = manifest.deep_view();
            let after = scripted(m, cast.deep_view(), turns.deep_view(), timings@);
            &&& committed.manifest.deep_view() == after
            &&& committed.changed_paths.deep_view() == changed_paths(m, after)
            &&& committed.dropped_binding_ids.deep_view() == dropped_from(turns.deep_view(), m.narration_bindings, 0)
        },
{
    check_turns(&turns, timings)?;
    assert(turns.deep_view().len() == turns.len());
    let turn_beats: Vec<TurnBeat> = settle_beats(&manifest.turn_beats, &turns, timings);
    let (narration_bindings, dropped_binding_ids) = sort_takes(&turns, &manifest.narration_bindings);
    // A dropped take leaves its clip pointing at narration the script no longer contains.
    let tracks: Vec<TimelineTrack> = free_tracks(&turns, &manifest.tracks);
    let after = VideoProjectManifest {
        cast: cast.duplicate(),
        turn_beats,
        dialogue: turns,
        narration_bindings,
        tracks,
        ..manifest.duplicate()
    };
    after.validate_strict()?;
    let paths: Vec<String> = manifest_changed_paths(manifest, &after);
    assert(paths.deep_view().len() == paths.len());
    if paths.len() == 0 {
        return Err(
            refuse(
                VideoErrorCode::InvalidRevision,
                "the requested cast and script are already applied to this project",
                "script",
            ),
        );
    }
    Ok(CommittedScript { manifest: after, changed_paths: paths, dropped_binding_ids })
}

/// Whether a project has the turns of a script, and the report says what became of turns and takes.
pub open spec fn is_applied(
    applied: AppliedDialogueScript,
    m: VideoProjectManifestModel,
    cast: Seq<CastMemberModel>,
    parsed: Seq<ParsedTurnModel>,
    timings: Seq<BeatTiming>,
    table: Seq<PathStagesModel>,
) -> bool {
    let weave = woven_script(m.dialogue, parsed);
    let after = scripted(m, cast, weave.turns, timings);
    &&& applied.manifest.deep_view() == after
    &&& applied.changed_paths.deep_view() == changed_paths(m, after)
    &&& are_stale(applied.invalidated_stages.deep_view(), table, changed_paths(m, after))
    &&& applied.retained_turn_ids.deep_view() == weave.retained
    &&& applied.new_turn_ids.deep_view() == weave.minted
    &&& applied.dropped_binding_ids.deep_view() == dropped_from(weave.turns, m.narration_bindings, 0)
}

fn weave_and_commit(
    manifest: &VideoProjectManifest,
    cast: &Vec<CastMember>,
    parsed: &Vec<ParsedTurn>,
    timings: &Vec<BeatTiming>,
    table: &Vec<PathStages>,
) -> (result: VideoResult<AppliedDialogueScript>)
    requires
        parsed.len() <= MAX_DIALOGUE_TURNS,
    ensures
        refusal(result) == or_else(
            weave_fault_from(manifest.deep_view().dialogue, parsed.deep_view(), 0),
            commit_fault(
                manifest.deep_view(),
                cast.deep_view(),
                woven_script(manifest.deep_view().dialogue, parsed.deep_view()).turns,
                timings@,
            ),
        ),
        result matches Ok(applied) ==> is_applied(
            applied,
            manifest.deep_view(),
            cast.deep_view(),
            parsed.deep_view(),
            timings@,
            table.deep_view(),
        ),
{
    assert(parsed.deep_view().len() == parsed.len());
    let weave: Weave = weave_script(&manifest.dialogue, parsed)?;
    let committed: CommittedScript = commit_script(manifest, cast, weave.turns, timings)?;
    let invalidated_stages: Vec<RevisionStage> = invalidated_stages_for_manifest_changes(
        &committed.changed_paths,
        table,
    );
    Ok(
        AppliedDialogueScript {
            manifest: committed.manifest,
            changed_paths: committed.changed_paths,
            invalidated_stages,
            retained_turn_ids: weave.retained,
            new_turn_ids: weave.minted,
            dropped_binding_ids: committed.dropped_binding_ids,
        },
    )
}

/// Applies a cast and script to a project without advancing its commit metadata. `timings` holds the
/// beat that the script implies before each of its turns, and `table` the stages that a change to each
/// part of the project makes stale.
pub fn apply_dialogue_script(
    manifest: &VideoProjectManifest,
    request: &DialogueScriptRequest,
    timings: &Vec<BeatTiming>,
    table: &Vec<PathStages>,
) -> (result: VideoResult<AppliedDialogueScript>)
    ensures
        refusal(result) == dialogue_fault(
            manifest.deep_view(),
            request.cast.deep_view(),
            request.script@,
            timings@,
        ),
        result matches Ok(applied) ==> is_applied(
            applied,
            manifest.deep_view(),
            request.cast.deep_view(),
            parsed_script(request.script@, request.cast.deep_view())->Ok_0,
            timings@,
            table.deep_view(),
        ),
{
    manifest.validate_strict()?;
    // Parsing before mutating means a script with an unknown speaker or an unclosed direction is
    // reported against its source line while the project is still untouched.
    let cast: &[CastMember] = request.cast.as_slice();
    assert(cast.deep_view() =~= request.cast.deep_view());
    let parsed: Vec<ParsedTurn> = parse_dialogue_script(request.script.as_str(), cast)?;
    assert(parsed.deep_view().len() == parsed.len());
    proof {
        if parsed.len() > 0 {
            parsed_turns_are_speakable(request.script@, request.cast.deep_view(), 0);
        }
    }
    weave_and_commit(manifest, &request.cast, &parsed, timings, table)
}

// ---------------------------------------------------------------------------------------------
// Laws
// ---------------------------------------------------------------------------------------------
/// How often a text stands among the first of a list.
pub open spec fn occurrences(list: Seq<Seq<char>>, wanted: Seq<char>, count: int) -> int
    decreases count,
{
    if count <= 0 {
        0
    } else if list[count - 1] == wanted {
        occurrences(list, wanted, count - 1) + 1
    } else {
        occurrences(list, wanted, count - 1)
    }
}

proof fn lemma_occurrences_grow(list: Seq<Seq<char>>, wanted: Seq<char>, from: int, to: int)
    requires
        0 <= from <= to <= list.len(),
    ensures
        0 <= occurrences(list, wanted, from) <= occurrences(list, wanted, to),
        from < to && list[from] == wanted ==> occurrences(list, wanted, from) < occurrences(list, wanted, to),
    decreases to,
{
    if from < to {
        lemma_occurrences_grow(list, wanted, from, to - 1);
    } else if to > 0 {
        lemma_occurrences_grow(list, wanted, from - 1, to - 1);
    }
}

/// Where the occurrence of a rank stands.
proof fn lemma_occurrence_of_rank(list: Seq<Seq<char>>, wanted: Seq<char>, count: int, rank: int) -> (place: int)
    requires
        0 <= count <= list.len(),
        0 <= rank < occurrences(list, wanted, count),
    ensures
        0 <= place < count,
        list[place] == wanted,
        occurrences(list, wanted, place) == rank,
    decreases count,
{
    if list[count - 1] == wanted && occurrences(list, wanted, count - 1) == rank {
        count - 1
    } else {
        lemma_occurrence_of_rank(list, wanted, count - 1, rank)
    }
}

/// What the first reusable turn is.
proof fn lemma_reusable(known: Seq<Seq<char>>, used: Seq<bool>, wanted: Seq<char>, index: int)
    requires
        0 <= index <= known.len(),
    ensures
        match reusable_from(known, used, wanted, index) {
            Some(place) => {
                &&& index <= place < known.len()
                &&& known[place] == wanted
                &&& !used[place]
                &&& forall|j: int| index <= j < place && #[trigger] known[j] == wanted ==> used[j]
            },
            None => forall|j: int| index <= j < known.len() && #[trigger] known[j] == wanted ==> used[j],
        },
    decreases known.len() - index,
{
    if index < known.len() {
        lemma_reusable(known, used, wanted, index + 1);
    }
}

/// After some turns of the script, exactly those turns of the project are used whose rank among
/// their like is below the number of their like in the script so far.
proof fn lemma_used(dialogue: Seq<DialogueTurnModel>, parsed: Seq<ParsedTurnModel>, count: int)
    requires
        0 <= count <= parsed.len(),
    ensures
        woven_after(dialogue, parsed, count).used.len() == dialogue.len(),
        woven_after(dialogue, parsed, count).turns.len() == count,
        forall|j: int|
            0 <= j < dialogue.len() ==> #[trigger] woven_after(dialogue, parsed, count).used[j] == (occurrences(
                identities(dialogue),
                identities(dialogue)[j],
                j,
            ) < occurrences(script_identities(parsed), identities(dialogue)[j], count)),
    decreases count,
{
    let known = identities(dialogue);
    let script = script_identities(parsed);
    if count > 0 {
        let k = count - 1;
        lemma_used(dialogue, parsed, k);
        let before = woven_after(dialogue, parsed, k);
        let after = woven_after(dialogue, parsed, count);
        let wanted = script[k];
        let seen = occurrences(script, wanted, k);
        lemma_reusable(known, before.used, wanted, 0);
        lemma_occurrences_grow(script, wanted, 0, k);
        match reusable_from(known, before.used, wanted, 0) {
            Some(place) => {
                if occurrences(known, wanted, place) > seen {
                    let earlier = lemma_occurrence_of_rank(known, wanted, place, seen);
                    assert(before.used[earlier]);
                }
                assert forall|j: int| 0 <= j < dialogue.len() implies #[trigger] after.used[j] == (occurrences(
                    known,
                    known[j],
                    j,
                ) < occurrences(script, known[j], count)) by {
                    assert(before.used[j] == (occurrences(known, known[j], j) < occurrences(script, known[j], k)));
                    if known[j] == wanted && j != place {
                        if j < place {
                            lemma_occurrences_grow(known, wanted, j, place);
                        } else {
                            lemma_occurrences_grow(known, wanted, place, j);
                        }
                    }
                }
            },
            None => {
                assert forall|j: int| 0 <= j < dialogue.len() implies #[trigger] after.used[j] == (occurrences(
                    known,
                    known[j],
                    j,
                ) < occurrences(script, known[j], count)) by {
                    assert(before.used[j] == (occurrences(known, known[j], j) < occurrences(script, known[j], k)));
                }
            },
        }
    } else {
        assert forall|j: int| 0 <= j < dialogue.len() implies occurrences(known, known[j], j) >= 0 by {
            lemma_occurrences_grow(known, known[j], j, j);
        }
    }
}

/// A turn stays as it was woven.
proof fn lemma_turn_stays(dialogue: Seq<DialogueTurnModel>, parsed: Seq<ParsedTurnModel>, index: int, count: int)
    requires
        0 <= index < count <= parsed.len(),
    ensures
        woven_after(dialogue, parsed, count).turns.len() == count,
        woven_after(dialogue, parsed, count).turns[index] == woven_after(
            dialogue,
            parsed,
            index + 1,
        ).turns[index],
    decreases count,
{
    lemma_used(dialogue, parsed, count);
    lemma_used(dialogue, parsed, count - 1);
    if index < count - 1 {
        lemma_turn_stays(dialogue, parsed, index, count - 1);
    }
}

/// A line whose words are already in the project keeps its turn: the first line of the script that
/// says something gets the first turn that said it, the second the second, and so on, wherever they
/// stand.
pub proof fn unchanged_words_keep_their_turn(
    dialogue: Seq<DialogueTurnModel>,
    parsed: Seq<ParsedTurnModel>,
    index: int,
) -> (place: int)
    requires
        0 <= index < parsed.len(),
        occurrences(script_identities(parsed), script_identities(parsed)[index], index) < occurrences(
            identities(dialogue),
            script_identities(parsed)[index],
            dialogue.len() as int,
        ),
    ensures
        0 <= place < dialogue.len(),
        identities(dialogue)[place] == script_identities(parsed)[index],
        occurrences(identities(dialogue), script_identities(parsed)[index], place) == occurrences(
            script_identities(parsed),
            script_identities(parsed)[index],
            index,
        ),
        woven_script(dialogue, parsed).turns[index] == retained_turn(
            dialogue[place],
            parsed[index],
            index as u32,
        ),
        woven_script(dialogue, parsed).turns[index].id == dialogue[place].id,
{
    let known = identities(dialogue);
    let script = script_identities(parsed);
    let wanted = script[index];
    let seen = occurrences(script, wanted, index);
    let before = woven_after(dialogue, parsed, index);
    lemma_occurrences_grow(script, wanted, 0, index);
    let place = lemma_occurrence_of_rank(known, wanted, dialogue.len() as int, seen);
    lemma_used(dialogue, parsed, index);
    lemma_reusable(known, before.used, wanted, 0);
    assert(!before.used[place]);
    let found = reusable_from(known, before.used, wanted, 0)->0;
    assert(found <= place);
    if found < place {
        lemma_occurrences_grow(known, wanted, found, place);
        assert(!before.used[found]);
    }
    lemma_turn_stays(dialogue, parsed, index, parsed.len() as int);
    place
}

/// A script that says nothing new mints no turn: reordering lines, or changing only stage
/// directions, keeps every identifier and with it every take.
pub proof fn a_script_of_known_lines_mints_nothing(
    dialogue: Seq<DialogueTurnModel>,
    parsed: Seq<ParsedTurnModel>,
    count: int,
)
    requires
        0 <= count <= parsed.len(),
        forall|k: int|
            0 <= k < count ==> occurrences(
                script_identities(parsed),
                #[trigger] script_identities(parsed)[k],
                k,
            ) < occurrences(identities(dialogue), script_identities(parsed)[k], dialogue.len() as int),
    ensures
        woven_after(dialogue, parsed, count).minted.len() == 0,
        woven_after(dialogue, parsed, count).retained.len() == count,
    decreases count,
{
    if count > 0 {
        a_script_of_known_lines_mints_nothing(dialogue, parsed, count - 1);
        let k = count - 1;
        let known = identities(dialogue);
        let script = script_identities(parsed);
        let wanted = script[k];
        let before = woven_after(dialogue, parsed, k);
        lemma_occurrences_grow(script, wanted, 0, k);
        let place = lemma_occurrence_of_rank(
            known,
            wanted,
            dialogue.len() as int,
            occurrences(script, wanted, k),
        );
        lemma_used(dialogue, parsed, k);
        lemma_reusable(known, before.used, wanted, 0);
        assert(!before.used[place]);
    }
}

/// Every turn of a woven script is retained or minted, never both.
pub proof fn every_turn_is_retained_or_minted(dialogue: Seq<DialogueTurnModel>, parsed: Seq<ParsedTurnModel>, count: int)
    requires
        0 <= count <= parsed.len(),
    ensures
        woven_after(dialogue, parsed, count).turns.len() == count,
        woven_after(dialogue, parsed, count).retained.len() + woven_after(dialogue, parsed, count).minted.len()
            == count,
    decreases count,
{
    if count > 0 {
        every_turn_is_retained_or_minted(dialogue, parsed, count - 1);
    }
}

/// A script leaves the revision, the history and the date of the last change alone: committing them is
/// the caller's. Only the cast, the dialogue, its beats and takes, and the turns that clips name change.
pub proof fn a_script_keeps_commit_metadata(
    m: VideoProjectManifestModel,
    cast: Seq<CastMemberModel>,
    turns: Seq<DialogueTurnModel>,
    timings: Seq<BeatTiming>,
)
    ensures
        ({
            let after = scripted(m, cast, turns, timings);
            &&& after.revision == m.revision
            &&& after.revision_history == m.revision_history
            &&& after.updated_at == m.updated_at
            &&& after == (VideoProjectManifestModel {
                cast: after.cast,
                dialogue: after.dialogue,
                turn_beats: after.turn_beats,
                narration_bindings: after.narration_bindings,
                tracks: after.tracks,
                ..m
            })
        }),
{
}

/// The project that an accepted script returns obeys every rule.
pub proof fn a_script_leaves_a_valid_project(
    m: VideoProjectManifestModel,
    cast: Seq<CastMemberModel>,
    script: Seq<char>,
    timings: Seq<BeatTiming>,
)
    requires
        dialogue_fault(m, cast, script, timings) is None,
    ensures
        VideoProjectManifest::fault_of(
            scripted(m, cast, woven_script(m.dialogue, parsed_script(script, cast)->Ok_0).turns, timings),
        ) is None,
{
}

proof fn lemma_held_beat(beats: Seq<TurnBeatModel>, turn_id: Seq<char>, index: int)
    ensures
        held_beat_from(beats, turn_id, index) matches Some(beat) ==> beat.turn_id == turn_id && beat.source
            == BeatSource::Explicit,
    decreases beats.len() - index,
{
    if 0 <= index < beats.len() {
        lemma_held_beat(beats, turn_id, index + 1);
    }
}

/// Every turn of a script has its own beat: the writer's where one was held for the turn, whatever
/// became of the other lines, and else the one that the script implies. A beat whose turn is gone goes
/// with it.
pub proof fn a_held_beat_survives(
    m: VideoProjectManifestModel,
    cast: Seq<CastMemberModel>,
    turns: Seq<DialogueTurnModel>,
    timings: Seq<BeatTiming>,
    index: int,
)
    requires
        0 <= index < turns.len(),
    ensures
        scripted(m, cast, turns, timings).turn_beats.len() == turns.len(),
        scripted(m, cast, turns, timings).turn_beats[index].turn_id == turns[index].id,
        match held_beat_from(m.turn_beats, turns[index].id, 0) {
            Some(beat) => scripted(m, cast, turns, timings).turn_beats[index] == beat,
            None => scripted(m, cast, turns, timings).turn_beats[index].source == BeatSource::Derived,
        },
{
    lemma_held_beat(m.turn_beats, turns[index].id, 0);
}

/// A take stays as long as the turn that it performs.
pub proof fn a_take_lives_as_long_as_its_turn(
    m: VideoProjectManifestModel,
    cast: Seq<CastMemberModel>,
    turns: Seq<DialogueTurnModel>,
    timings: Seq<BeatTiming>,
    index: int,
)
    requires
        0 <= index < m.narration_bindings.len(),
        m.narration_bindings[index].turn_id is Some,
        holds::<DialogueTurn>(turns, m.narration_bindings[index].turn_id->0),
    ensures
        scripted(m, cast, turns, timings).narration_bindings.contains(m.narration_bindings[index]),
{
    what_is_kept_stays(m.narration_bindings, surviving_takes(turns), 0, index);
}

// ---------------------------------------------------------------------------------------------
// What is reported, and what a second application does
// ---------------------------------------------------------------------------------------------
/// Whether a turn of a script finds a turn of the project that said the same and that no earlier turn of
/// the script has taken.
pub open spec fn is_kept_turn(dialogue: Seq<DialogueTurnModel>, parsed: Seq<ParsedTurnModel>, index: int) -> bool {
    occurrences(script_identities(parsed), script_identities(parsed)[index], index) < occurrences(
        identities(dialogue),
        script_identities(parsed)[index],
        dialogue.len() as int,
    )
}

/// The identifiers of those of the first turns that are kept, or of those that are not.
pub open spec fn ids_of_group(
    dialogue: Seq<DialogueTurnModel>,
    parsed: Seq<ParsedTurnModel>,
    turns: Seq<DialogueTurnModel>,
    kept_ones: bool,
    count: int,
) -> Seq<Seq<char>>
    decreases count,
{
    if count <= 0 {
        Seq::empty()
    } else if is_kept_turn(dialogue, parsed, count - 1) == kept_ones {
        ids_of_group(dialogue, parsed, turns, kept_ones, count - 1).push(turns[count - 1].id)
    } else {
        ids_of_group(dialogue, parsed, turns, kept_ones, count - 1)
    }
}

/// A turn finds one to reuse exactly where fewer turns before it have said the same than the project
/// has.
proof fn lemma_found(dialogue: Seq<DialogueTurnModel>, parsed: Seq<ParsedTurnModel>, index: int)
    requires
        0 <= index < parsed.len(),
    ensures
        reusable_from(
            identities(dialogue),
            woven_after(dialogue, parsed, index).used,
            script_identities(parsed)[index],
            0,
        ) is Some <==> is_kept_turn(dialogue, parsed, index),
{
    let known = identities(dialogue);
    let script = script_identities(parsed);
    let wanted = script[index];
    let before = woven_after(dialogue, parsed, index);
    let seen = occurrences(script, wanted, index);
    lemma_used(dialogue, parsed, index);
    lemma_reusable(known, before.used, wanted, 0);
    lemma_occurrences_grow(script, wanted, 0, index);
    match reusable_from(known, before.used, wanted, 0) {
        Some(place) => {
            assert(!before.used[place]);
            lemma_occurrences_grow(known, wanted, place, known.len() as int);
        },
        None => {
            if seen < occurrences(known, wanted, known.len() as int) {
                let place = lemma_occurrence_of_rank(known, wanted, known.len() as int, seen);
                assert(!before.used[place]);
            }
        },
    }
}

proof fn lemma_groups(
    dialogue: Seq<DialogueTurnModel>,
    parsed: Seq<ParsedTurnModel>,
    turns: Seq<DialogueTurnModel>,
    count: int,
)
    requires
        0 <= count <= parsed.len(),
        turns == woven_script(dialogue, parsed).turns,
    ensures
        woven_after(dialogue, parsed, count).retained == ids_of_group(dialogue, parsed, turns, true, count),
        woven_after(dialogue, parsed, count).minted == ids_of_group(dialogue, parsed, turns, false, count),
    decreases count,
{
    if count > 0 {
        let k = count - 1;
        lemma_groups(dialogue, parsed, turns, k);
        lemma_found(dialogue, parsed, k);
        lemma_used(dialogue, parsed, k);
        lemma_turn_stays(dialogue, parsed, k, parsed.len() as int);
        let before = woven_after(dialogue, parsed, k);
        let after = woven_after(dialogue, parsed, count);
        assert(after.turns.last() == after.turns[k]);
        assert(turns[k] == after.turns[k]);
    }
}

/// Whether a turn of a project has the character of a turn of a script say what they say there.
pub open spec fn says_the_same(turn: DialogueTurnModel, line: ParsedTurnModel) -> bool {
    turn.character_id == line.character_id && turn.text == line.text
}

/// How many of the first turns of a project say what a turn of a script says.
pub open spec fn said_before(dialogue: Seq<DialogueTurnModel>, line: ParsedTurnModel, count: int) -> int
    decreases count,
{
    if count <= 0 {
        0
    } else if says_the_same(dialogue[count - 1], line) {
        said_before(dialogue, line, count - 1) + 1
    } else {
        said_before(dialogue, line, count - 1)
    }
}

/// How many of the first turns of a script say what one of its turns says.
pub open spec fn written_before(parsed: Seq<ParsedTurnModel>, line: ParsedTurnModel, count: int) -> int
    decreases count,
{
    if count <= 0 {
        0
    } else if parsed[count - 1].character_id == line.character_id && parsed[count - 1].text == line.text {
        written_before(parsed, line, count - 1) + 1
    } else {
        written_before(parsed, line, count - 1)
    }
}

/// Whether the digests of what is said are as different as what is said.
pub open spec fn told_apart(dialogue: Seq<DialogueTurnModel>, parsed: Seq<ParsedTurnModel>) -> bool {
    &&& forall|i: int, j: int|
        0 <= i < dialogue.len() && 0 <= j < parsed.len() && #[trigger] identities(dialogue)[i]
            == #[trigger] script_identities(parsed)[j] ==> says_the_same(dialogue[i], parsed[j])
    &&& forall|i: int, j: int|
        0 <= i < parsed.len() && 0 <= j < parsed.len() && #[trigger] script_identities(parsed)[i]
            == #[trigger] script_identities(parsed)[j] ==> parsed[i].character_id == parsed[j].character_id
            && parsed[i].text == parsed[j].text
}

proof fn lemma_said(dialogue: Seq<DialogueTurnModel>, parsed: Seq<ParsedTurnModel>, index: int, count: int)
    requires
        told_apart(dialogue, parsed),
        0 <= index < parsed.len(),
        0 <= count <= dialogue.len(),
    ensures
        occurrences(identities(dialogue), script_identities(parsed)[index], count) == said_before(
            dialogue,
            parsed[index],
            count,
        ),
    decreases count,
{
    if count > 0 {
        lemma_said(dialogue, parsed, index, count - 1);
        assert(identities(dialogue)[count - 1] == identity(
            dialogue[count - 1].character_id,
            dialogue[count - 1].text,
        ));
        assert(script_identities(parsed)[index] == identity(parsed[index].character_id, parsed[index].text));
    }
}

proof fn lemma_written(dialogue: Seq<DialogueTurnModel>, parsed: Seq<ParsedTurnModel>, index: int, count: int)
    requires
        told_apart(dialogue, parsed),
        0 <= index < parsed.len(),
        0 <= count <= parsed.len(),
    ensures
        occurrences(script_identities(parsed), script_identities(parsed)[index], count) == written_before(
            parsed,
            parsed[index],
            count,
        ),
    decreases count,
{
    if count > 0 {
        lemma_written(dialogue, parsed, index, count - 1);
        assert(script_identities(parsed)[count - 1] == identity(
            parsed[count - 1].character_id,
            parsed[count - 1].text,
        ));
        assert(script_identities(parsed)[index] == identity(parsed[index].character_id, parsed[index].text));
    }
}

/// A turn's identity is what is said and by whom, not where: of the turns of a script that have one
/// character say one thing, the first takes the identifier of the project's first turn that does, the
/// second that of the second, and so on; those that find none left are new. The digests of what is said
/// have to differ where what is said does.
pub proof fn a_turn_is_known_by_its_words(dialogue: Seq<DialogueTurnModel>, parsed: Seq<ParsedTurnModel>, index: int)
    requires
        0 <= index < parsed.len(),
        told_apart(dialogue, parsed),
    ensures
        is_kept_turn(dialogue, parsed, index) <==> written_before(parsed, parsed[index], index) < said_before(
            dialogue,
            parsed[index],
            dialogue.len() as int,
        ),
        is_kept_turn(dialogue, parsed, index) ==> exists|place: int|
            0 <= place < dialogue.len() && says_the_same(#[trigger] dialogue[place], parsed[index]) && said_before(
                dialogue,
                parsed[index],
                place,
            ) == written_before(parsed, parsed[index], index) && woven_script(dialogue, parsed).turns[index].id
                == dialogue[place].id,
{
    lemma_said(dialogue, parsed, index, dialogue.len() as int);
    lemma_written(dialogue, parsed, index, index);
    if is_kept_turn(dialogue, parsed, index) {
        let place = unchanged_words_keep_their_turn(dialogue, parsed, index);
        lemma_said(dialogue, parsed, index, place);
        assert(identities(dialogue)[place] == script_identities(parsed)[index]);
        assert(says_the_same(dialogue[place], parsed[index]));
    }
}

/// The two reported lists are exactly the kept and the new turns, each in the order of the script, and
/// no two turns of the script share an identifier.
pub proof fn the_report_tells_the_turns_apart(
    m: VideoProjectManifestModel,
    cast: Seq<CastMemberModel>,
    script: Seq<char>,
    timings: Seq<BeatTiming>,
)
    requires
        dialogue_fault(m, cast, script, timings) is None,
    ensures
        ({
            let parsed = parsed_script(script, cast)->Ok_0;
            let weave = woven_script(m.dialogue, parsed);
            let count = parsed.len() as int;
            &&& weave.turns.len() == count
            &&& weave.retained == ids_of_group(m.dialogue, parsed, weave.turns, true, count)
            &&& weave.minted == ids_of_group(m.dialogue, parsed, weave.turns, false, count)
            &&& distinct(names::<DialogueTurn>(weave.turns))
            &&& forall|i: int| 0 <= i < count ==> is_turn_of(#[trigger] weave.turns[i], parsed[i], i)
        }),
{
    let parsed = parsed_script(script, cast)->Ok_0;
    let weave = woven_script(m.dialogue, parsed);
    lemma_groups(m.dialogue, parsed, weave.turns, parsed.len() as int);
    lemma_used(m.dialogue, parsed, parsed.len() as int);
    unique_is_distinct(names::<DialogueTurn>(weave.turns), "dialogue"@);
    assert forall|i: int| 0 <= i < parsed.len() implies is_turn_of(#[trigger] weave.turns[i], parsed[i], i) by {
        lemma_turn_of(m.dialogue, parsed, i);
    }
}

/// Whether a turn says what a line of a script says, at its place.
pub open spec fn is_turn_of(turn: DialogueTurnModel, parsed: ParsedTurnModel, index: int) -> bool {
    &&& turn.order == index as u32
    &&& turn.character_id == parsed.character_id
    &&& turn.text == parsed.text
    &&& turn.direction == parsed.direction
    &&& turn.source_line == parsed.source_line
}

proof fn lemma_turn_of(dialogue: Seq<DialogueTurnModel>, parsed: Seq<ParsedTurnModel>, index: int)
    requires
        0 <= index < parsed.len(),
    ensures
        is_turn_of(woven_script(dialogue, parsed).turns[index], parsed[index], index),
{
    lemma_turn_stays(dialogue, parsed, index, parsed.len() as int);
    lemma_used(dialogue, parsed, index);
}

/// A script woven into the turns that it has itself made makes the same turns.
proof fn lemma_woven_again(dialogue: Seq<DialogueTurnModel>, parsed: Seq<ParsedTurnModel>, index: int)
    requires
        0 <= index < parsed.len(),
    ensures
        woven_script(woven_script(dialogue, parsed).turns, parsed).turns[index] == woven_script(
            dialogue,
            parsed,
        ).turns[index],
{
    let turns = woven_script(dialogue, parsed).turns;
    let script = script_identities(parsed);
    lemma_used(dialogue, parsed, parsed.len() as int);
    assert(identities(turns) =~= script) by {
        assert forall|i: int| 0 <= i < parsed.len() implies identities(turns)[i] == script[i] by {
            lemma_turn_of(dialogue, parsed, i);
        }
    }
    let wanted = script[index];
    lemma_occurrences_grow(script, wanted, index, parsed.len() as int);
    let place = unchanged_words_keep_their_turn(turns, parsed, index);
    if place < index {
        lemma_occurrences_grow(script, wanted, place, index);
    } else if index < place {
        lemma_occurrences_grow(script, wanted, index, place);
    }
    lemma_turn_of(dialogue, parsed, index);
}

proof fn lemma_turn_usable(dialogue: Seq<DialogueTurnModel>, parsed: Seq<ParsedTurnModel>, from: int, index: int)
    requires
        0 <= from <= index < parsed.len(),
        weave_fault_from(dialogue, parsed, from) is None,
    ensures
        DialogueTurn::fault_of(woven_script(dialogue, parsed).turns[index]) is None,
    decreases index - from,
{
    if from < index {
        lemma_turn_usable(dialogue, parsed, from + 1, index);
    } else {
        lemma_turn_stays(dialogue, parsed, index, parsed.len() as int);
        lemma_used(dialogue, parsed, index + 1);
        let after = woven_after(dialogue, parsed, index + 1);
        assert(after.turns.last() == after.turns[index]);
    }
}

proof fn lemma_turns_usable(dialogue: Seq<DialogueTurnModel>, parsed: Seq<ParsedTurnModel>, index: int)
    requires
        0 <= index,
        forall|i: int|
            0 <= i < parsed.len() ==> DialogueTurn::fault_of(#[trigger] woven_script(dialogue, parsed).turns[i]) is None,
    ensures
        weave_fault_from(dialogue, parsed, index) is None,
    decreases parsed.len() - index,
{
    if index < parsed.len() {
        lemma_turns_usable(dialogue, parsed, index + 1);
        lemma_turn_stays(dialogue, parsed, index, parsed.len() as int);
        lemma_used(dialogue, parsed, index + 1);
        let after = woven_after(dialogue, parsed, index + 1);
        assert(after.turns.last() == after.turns[index]);
        assert(woven_script(dialogue, parsed).turns[index] == after.turns[index]);
    }
}

proof fn lemma_survivors(
    bindings: Seq<NarrationBindingModel>,
    keep: spec_fn(NarrationBindingModel) -> bool,
    index: int,
)
    requires
        0 <= index,
    ensures
        forall|i: int| 0 <= i < kept_from(bindings, keep, index).len() ==> keep(#[trigger] kept_from(bindings, keep, index)[i]),
    decreases bindings.len() - index,
{
    if index < bindings.len() {
        lemma_survivors(bindings, keep, index + 1);
        let rest = kept_from(bindings, keep, index + 1);
        let all = kept_from(bindings, keep, index);
        assert forall|i: int| 0 <= i < all.len() implies keep(#[trigger] all[i]) by {
            if keep(bindings[index]) {
                if i > 0 {
                    assert(all[i] == rest[i - 1]);
                }
            } else {
                assert(all[i] == rest[i]);
            }
        }
    }
}

proof fn lemma_settled_beats(
    beats: Seq<TurnBeatModel>,
    turns: Seq<DialogueTurnModel>,
    timings: Seq<BeatTiming>,
    index: int,
    from: int,
)
    requires
        distinct(names::<DialogueTurn>(turns)),
        0 <= index < turns.len(),
        0 <= from <= index,
    ensures
        held_beat_from(beats_of(beats, turns, timings), turns[index].id, from) == if beats_of(beats, turns, timings)[index].source
            == BeatSource::Explicit {
            Some(beats_of(beats, turns, timings)[index])
        } else {
            None
        },
    decreases index - from,
{
    let settled = beats_of(beats, turns, timings);
    lemma_held_beat(beats, turns[from].id, 0);
    assert(settled[from].turn_id == turns[from].id);
    if from < index {
        lemma_settled_beats(beats, turns, timings, index, from + 1);
        assert(names::<DialogueTurn>(turns)[from] != names::<DialogueTurn>(turns)[index]);
    } else {
        lemma_no_later_beat(beats, turns, timings, index, index + 1);
    }
}

proof fn lemma_no_later_beat(
    beats: Seq<TurnBeatModel>,
    turns: Seq<DialogueTurnModel>,
    timings: Seq<BeatTiming>,
    index: int,
    from: int,
)
    requires
        distinct(names::<DialogueTurn>(turns)),
        0 <= index < from <= turns.len(),
    ensures
        held_beat_from(beats_of(beats, turns, timings), turns[index].id, from) is None,
    decreases turns.len() - from,
{
    if from < turns.len() {
        lemma_no_later_beat(beats, turns, timings, index, from + 1);
        lemma_held_beat(beats, turns[from].id, 0);
        assert(names::<DialogueTurn>(turns)[index] != names::<DialogueTurn>(turns)[from]);
    }
}

/// A project to which a script has been applied is as it would be if the script were applied again.
proof fn lemma_scripted_again(
    m: VideoProjectManifestModel,
    cast: Seq<CastMemberModel>,
    turns: Seq<DialogueTurnModel>,
    timings: Seq<BeatTiming>,
)
    requires
        distinct(names::<DialogueTurn>(turns)),
    ensures
        scripted(scripted(m, cast, turns, timings), cast, turns, timings) == scripted(m, cast, turns, timings),
{
    let after = scripted(m, cast, turns, timings);
    let again = scripted(after, cast, turns, timings);
    assert(again.turn_beats =~= after.turn_beats) by {
        assert forall|i: int| 0 <= i < turns.len() implies again.turn_beats[i] == after.turn_beats[i] by {
            lemma_settled_beats(m.turn_beats, turns, timings, i, 0);
            lemma_held_beat(m.turn_beats, turns[i].id, 0);
        }
    }
    assert(again.narration_bindings == after.narration_bindings) by {
        lemma_survivors(m.narration_bindings, surviving_takes(turns), 0);
        all_are_kept(after.narration_bindings, surviving_takes(turns), 0);
        assert(after.narration_bindings.skip(0) =~= after.narration_bindings);
    }
    assert(again.tracks =~= after.tracks) by {
        assert forall|i: int| 0 <= i < m.tracks.len() implies again.tracks[i] == after.tracks[i] by {
            assert(again.tracks[i].clips =~= after.tracks[i].clips);
        }
    }
}

/// Applying the same cast, script and beats a second time is refused: there is nothing to change.
pub proof fn a_second_application_changes_nothing(
    m: VideoProjectManifestModel,
    cast: Seq<CastMemberModel>,
    script: Seq<char>,
    timings: Seq<BeatTiming>,
)
    requires
        dialogue_fault(m, cast, script, timings) is None,
    ensures
        dialogue_fault(
            scripted(m, cast, woven_script(m.dialogue, parsed_script(script, cast)->Ok_0).turns, timings),
            cast,
            script,
            timings,
        ) == Some(already_applied()),
{
    let parsed = parsed_script(script, cast)->Ok_0;
    let turns = woven_script(m.dialogue, parsed).turns;
    let after = scripted(m, cast, turns, timings);
    lemma_used(m.dialogue, parsed, parsed.len() as int);
    lemma_used(turns, parsed, parsed.len() as int);
    unique_is_distinct(names::<DialogueTurn>(turns), "dialogue"@);
    assert(woven_script(turns, parsed).turns =~= turns) by {
        assert forall|i: int| 0 <= i < parsed.len() implies woven_script(turns, parsed).turns[i] == turns[i] by {
            lemma_woven_again(m.dialogue, parsed, i);
        }
    }
    assert forall|i: int| 0 <= i < parsed.len() implies DialogueTurn::fault_of(
        #[trigger] woven_script(turns, parsed).turns[i],
    ) is None by {
        lemma_turn_usable(m.dialogue, parsed, 0, i);
    }
    lemma_turns_usable(turns, parsed, 0);
    lemma_scripted_again(m, cast, turns, timings);
    lemma_no_paths(after, after);
}

/// A script that was woven in is what the project says: its turns are the lines of the script, in their order, each
/// said by the character and in the words and with the direction that the script gives it. A turn that was there
/// keeps its name and its scene, and counts a revision more only where something about it changed.
pub proof fn a_woven_script_says_the_script(
    dialogue: Seq<DialogueTurnModel>,
    parsed: Seq<ParsedTurnModel>,
    count: int,
    index: int,
)
    requires
        0 <= index < count <= parsed.len(),
        parsed.len() <= u32::MAX,
    ensures
        woven_after(dialogue, parsed, count).turns.len() == count,
        ({
            let turn = woven_after(dialogue, parsed, count).turns[index];
            let line = parsed[index];
            &&& turn.order == index
            &&& turn.character_id == line.character_id
            &&& turn.text == line.text
            &&& turn.direction == line.direction
            &&& turn.source_line == line.source_line
            &&& is_fresh(turn) || exists|i: int|
                0 <= i < dialogue.len() && #[trigger] continues(dialogue[i], turn)
        }),
    decreases count,
{
    every_turn_is_retained_or_minted(dialogue, parsed, count);
    every_turn_is_retained_or_minted(dialogue, parsed, count - 1);
    let before = woven_after(dialogue, parsed, count - 1);
    let after = woven_after(dialogue, parsed, count);
    if index < count - 1 {
        a_woven_script_says_the_script(dialogue, parsed, count - 1, index);
        assert(after.turns[index] == before.turns[index]);
    } else {
        let line = parsed[index];
        let wanted = identity(line.character_id, line.text);
        match reusable_from(identities(dialogue), before.used, wanted, 0) {
            Some(place) => {
                lemma_reusable(identities(dialogue), before.used, wanted, 0);
                assert(after.turns[index] == retained_turn(dialogue[place], line, index as u32));
                assert(continues(dialogue[place], after.turns[index]));
            },
            None => {
                assert(is_fresh(after.turns[index]));
            },
        }
    }
}

/// Whether a turn is new: it belongs to no scene yet and has its first revision.
pub open spec fn is_fresh(turn: DialogueTurnModel) -> bool {
    turn.scene_id is None && turn.revision == 1
}

/// Whether a turn goes on from one that was there: under its name, in its scene, and with a revision more where its
/// place, its direction or its line in the script changed and revisions can still be counted.
pub open spec fn continues(previous: DialogueTurnModel, turn: DialogueTurnModel) -> bool {
    let changed = turn.order != previous.order || turn.direction != previous.direction || turn.source_line
        != previous.source_line;
    &&& turn.id == previous.id
    &&& turn.scene_id == previous.scene_id
    &&& turn.revision - previous.revision == if changed && previous.revision < u32::MAX {
        1int
    } else {
        0
    }
}

/// A take whose turn is gone goes with it and is reported; a clip that performed the turn still plays, and names the
/// turn no longer.
pub proof fn a_take_goes_with_its_turn(
    m: VideoProjectManifestModel,
    cast: Seq<CastMemberModel>,
    turns: Seq<DialogueTurnModel>,
    timings: Seq<BeatTiming>,
    index: int,
)
    requires
        0 <= index < m.narration_bindings.len(),
        m.narration_bindings[index].turn_id is Some,
        forall|i: int| 0 <= i < turns.len() ==> Some((#[trigger] turns[i]).id) != m.narration_bindings[index].turn_id,
    ensures
        !scripted(m, cast, turns, timings).narration_bindings.contains(m.narration_bindings[index]),
        dropped_from(turns, m.narration_bindings, 0).contains(m.narration_bindings[index].id),
        forall|t: int, c: int|
            0 <= t < m.tracks.len() && 0 <= c < m.tracks[t].clips.len() ==> {
                let before = m.tracks[t].clips[c];
                let after = #[trigger] scripted(m, cast, turns, timings).tracks[t].clips[c];
                &&& after == TimelineClipModel { turn_id: after.turn_id, ..before }
                &&& before.turn_id == m.narration_bindings[index].turn_id ==> after.turn_id is None
                &&& after.turn_id is Some ==> after.turn_id == before.turn_id
            },
{
    let take = m.narration_bindings[index];
    let keep = surviving_takes(turns);
    let turn_id = take.turn_id->0;
    what_is_found_bears_the_name::<DialogueTurn>(turns, turn_id);
    if let Some(place) = place_of::<DialogueTurn>(turns, turn_id) {
        assert(Some(turns[place].id) != take.turn_id);
    }
    assert(!keep(take));
    let places = what_is_kept_keeps_its_order(m.narration_bindings, keep);
    let left = scripted(m, cast, turns, timings).narration_bindings;
    if left.contains(take) {
        let k = choose|k: int| 0 <= k < left.len() && left[k] == take;
        assert(keep(m.narration_bindings[places[k]]));
    }
    lemma_dropped(turns, m.narration_bindings, 0, index);
}

proof fn lemma_dropped(turns: Seq<DialogueTurnModel>, bindings: Seq<NarrationBindingModel>, from: int, index: int)
    requires
        0 <= from <= index < bindings.len(),
        !take_survives(turns, bindings[index]),
    ensures
        dropped_from(turns, bindings, from).contains(bindings[index].id),
    decreases index - from,
{
    let all = dropped_from(turns, bindings, from);
    if from == index {
        assert(all[0] == bindings[index].id);
    } else {
        lemma_dropped(turns, bindings, from + 1, index);
        let rest = dropped_from(turns, bindings, from + 1);
        let k = choose|k: int| 0 <= k < rest.len() && rest[k] == bindings[index].id;
        let more = all.len() - rest.len();
        assert(all[k + more] == bindings[index].id);
    }
}

} // verus!
