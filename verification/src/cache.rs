//! Content addresses of cached work, and which cached work a change makes stale.

use crate::bytes::{big_endian, push_bytes, push_text, push_unsigned};
use crate::digest::{is_sha256_hex, sha256_hex, sha256_hex_text};
use crate::error::{fault, or_else, refusal, unless, Fault, VideoError, VideoErrorCode, VideoResult};
use crate::model::{holds, lemma_place_from, place_of, put, put_named, with_last, Model, Named};
use crate::order::{
    an_ordered_set_has_one_form, is_ordered_set, rank, ranked, ranking_forgets_the_order, same_items_once, text_before,
    text_less, text_order, with_item, Ranked,
};
use crate::rules::{
    identifier_fault, optional_identifier_fault, sha256_fault, validate_identifier, validate_optional_identifier,
    validate_sha256,
};
use crate::text::{blank, byte_len, bytes_in, decimal, decimal_text, is_blank, signed_decimal, signed_decimal_text, text_eq};
use vstd::prelude::*;
use vstd::utf8::encode_utf8;

verus! {

/// A kind of cached work.
#[derive(Clone, Copy, Debug, PartialEq, Eq, PartialOrd, Ord, Structural)]
pub enum CacheStage {
    Probe,
    Proxy,
    Thumbnail,
    Waveform,
    Transcription,
    SceneAnalysis,
    Plan,
    Speech,
    Music,
    Image,
    Tracking,
    Captions,
    AudioMix,
    SceneRender,
    PreviewRender,
    FinalRender,
    PublishPackage,
}

impl CacheStage {
    pub open spec fn name(self) -> Seq<char> {
        match self {
            CacheStage::Probe => "probe"@,
            CacheStage::Proxy => "proxy"@,
            CacheStage::Thumbnail => "thumbnail"@,
            CacheStage::Waveform => "waveform"@,
            CacheStage::Transcription => "transcription"@,
            CacheStage::SceneAnalysis => "scene_analysis"@,
            CacheStage::Plan => "plan"@,
            CacheStage::Speech => "speech"@,
            CacheStage::Music => "music"@,
            CacheStage::Image => "image"@,
            CacheStage::Tracking => "tracking"@,
            CacheStage::Captions => "captions"@,
            CacheStage::AudioMix => "audio_mix"@,
            CacheStage::SceneRender => "scene_render"@,
            CacheStage::PreviewRender => "preview_render"@,
            CacheStage::FinalRender => "final_render"@,
            CacheStage::PublishPackage => "publish_package"@,
        }
    }

    /// The stable name of the stage.
    pub fn as_str(self) -> (name: &'static str)
        ensures
            name@ == self.name(),
    {
        match self {
            CacheStage::Probe => "probe",
            CacheStage::Proxy => "proxy",
            CacheStage::Thumbnail => "thumbnail",
            CacheStage::Waveform => "waveform",
            CacheStage::Transcription => "transcription",
            CacheStage::SceneAnalysis => "scene_analysis",
            CacheStage::Plan => "plan",
            CacheStage::Speech => "speech",
            CacheStage::Music => "music",
            CacheStage::Image => "image",
            CacheStage::Tracking => "tracking",
            CacheStage::Captions => "captions",
            CacheStage::AudioMix => "audio_mix",
            CacheStage::SceneRender => "scene_render",
            CacheStage::PreviewRender => "preview_render",
            CacheStage::FinalRender => "final_render",
            CacheStage::PublishPackage => "publish_package",
        }
    }
}

// ---------------------------------------------------------------------------------------------
// Structured values
// ---------------------------------------------------------------------------------------------
/// A structured value. An object is a map filled in the order of its entries: of two entries of one name
/// the last counts.
#[derive(Debug, PartialEq, Eq)]
pub enum JsonValue {
    Null,
    Bool(bool),
    Integer(i64),
    /// A whole number, for those above the range of [`JsonValue::Integer`].
    Natural(u64),
    /// A number with a fraction or an exponent: as it is written, and the bits of the double that it is.
    /// No cache input may hold one.
    Decimal { text: String, bits: u64 },
    Text(String),
    List(Vec<JsonValue>),
    Object(Vec<JsonEntry>),
}

/// A named value of an object.
#[derive(Debug, PartialEq, Eq)]
pub struct JsonEntry {
    pub name: String,
    pub value: JsonValue,
}

/// A hexadecimal digit in lowercase.
pub open spec fn hex_char(value: int) -> char {
    if value < 10 {
        ('0' as int + value) as char
    } else {
        ('a' as int + (value - 10)) as char
    }
}

/// What stands for a character in a JSON text: quotation marks, backslashes and the controls below the
/// space are escaped.
pub open spec fn json_char(c: char) -> Seq<char> {
    if c == '"' {
        seq!['\\', '"']
    } else if c == '\\' {
        seq!['\\', '\\']
    } else if c == '\u{8}' {
        seq!['\\', 'b']
    } else if c == '\u{9}' {
        seq!['\\', 't']
    } else if c == '\u{a}' {
        seq!['\\', 'n']
    } else if c == '\u{c}' {
        seq!['\\', 'f']
    } else if c == '\u{d}' {
        seq!['\\', 'r']
    } else if c <= '\u{1f}' {
        seq!['\\', 'u', '0', '0', hex_char(c as int / 16), hex_char(c as int % 16)]
    } else {
        seq![c]
    }
}

/// What stands for the first characters of a text.
pub open spec fn json_chars(text: Seq<char>, count: int) -> Seq<char>
    decreases count,
{
    if count <= 0 {
        Seq::empty()
    } else {
        json_chars(text, count - 1) + json_char(text[count - 1])
    }
}

/// A text as JSON writes it, in quotation marks and with its escapes.
pub open spec fn json_quoted(text: Seq<char>) -> Seq<char> {
    seq!['"'] + json_chars(text, text.len() as int) + seq!['"']
}

/// `serde_json::Value::to_string` on a string value: the text in quotation marks, with two-character
/// escapes for the quotation mark, the backslash, backspace, tab, line feed, form feed and carriage
/// return, `\u00` and two lowercase hexadecimal digits for the other characters below the space, and
/// every other character as it is.
#[verifier::external_body]
pub(crate) fn json_quoted_text(text: &str) -> (quoted: String)
    ensures
        quoted@ == json_quoted(text@),
{
    serde_json::Value::String(text.to_owned()).to_string()
}

/// A named value as it is written: the name and the text of the value.
pub struct WrittenEntry {
    pub name: String,
    pub text: String,
}

/// What a [`WrittenEntry`] holds, as mathematical values.
pub struct WrittenEntryModel {
    pub name: Seq<char>,
    pub text: Seq<char>,
}

impl DeepView for WrittenEntry {
    type V = WrittenEntryModel;

    open spec fn deep_view(&self) -> WrittenEntryModel {
        WrittenEntryModel { name: self.name@, text: self.text@ }
    }
}

impl Model for WrittenEntry {
    fn duplicate(&self) -> (copy: Self) {
        WrittenEntry { name: self.name.clone(), text: self.text.clone() }
    }

    fn same(&self, other: &Self) -> (equal: bool) {
        self.name.same(&other.name) && self.text.same(&other.text)
    }
}

impl Named for WrittenEntry {
    open spec fn name_of(model: WrittenEntryModel) -> Seq<char> {
        model.name
    }

    fn name(&self) -> (name: &String) {
        &self.name
    }
}

/// Entries are ranked by name, then by text.
impl Ranked for WrittenEntry {
    open spec fn before(left: WrittenEntryModel, right: WrittenEntryModel) -> bool {
        text_less(left.name, right.name) || (left.name == right.name && text_less(left.text, right.text))
    }

    fn comes_before(&self, other: &Self) -> (result: bool) {
        text_before(self.name.as_str(), other.name.as_str()) || (text_eq(
            self.name.as_str(),
            other.name.as_str(),
        ) && text_before(self.text.as_str(), other.text.as_str()))
    }

    proof fn before_is_an_order(a: WrittenEntryModel, b: WrittenEntryModel, c: WrittenEntryModel) {
        text_order(a.text, b.text, c.text);
        text_order(b.text, c.text, a.text);
        text_order(c.text, b.text, a.text);
        text_order(a.text, c.text, b.text);
        text_order(a.name, b.name, c.name);
        text_order(b.name, c.name, a.name);
        text_order(c.name, b.name, a.name);
        text_order(a.name, c.name, b.name);
    }
}

/// Texts with commas between them, from one on.
pub open spec fn listed_from(texts: Seq<Seq<char>>, index: int) -> Seq<char>
    decreases texts.len() - index,
{
    if index < 0 || index >= texts.len() {
        Seq::empty()
    } else if index == 0 {
        texts[0] + listed_from(texts, 1)
    } else {
        ","@ + texts[index] + listed_from(texts, index + 1)
    }
}

/// Entries as members of an object.
pub open spec fn member_texts(entries: Seq<WrittenEntryModel>) -> Seq<Seq<char>> {
    Seq::new(entries.len(), |i: int| json_quoted(entries[i].name) + ":"@ + entries[i].text)
}

/// The members that the first entries fill an object with: of two entries of one name the last.
pub open spec fn members(entries: Seq<WrittenEntryModel>, count: int) -> Seq<WrittenEntryModel>
    decreases count,
{
    if count <= 0 {
        Seq::empty()
    } else {
        put::<WrittenEntry>(members(entries, count - 1), entries[count - 1])
    }
}

/// An object with its members in the order of their names.
pub open spec fn object_text(entries: Seq<WrittenEntryModel>) -> Seq<char> {
    "{"@ + listed_from(member_texts(ranked::<WrittenEntry>(members(entries, entries.len() as int))), 0) + "}"@
}

/// A value as canonical JSON: no spaces, and the members of every object in the order of their names.
pub open spec fn canonical_text(value: JsonValue) -> Seq<char>
    decreases value, 0int,
{
    match value {
        JsonValue::Null => "null"@,
        JsonValue::Bool(flag) => if flag {
            "true"@
        } else {
            "false"@
        },
        JsonValue::Integer(number) => signed_decimal(number as int),
        JsonValue::Natural(number) => decimal(number as nat),
        JsonValue::Decimal { text, .. } => text@,
        JsonValue::Text(text) => json_quoted(text@),
        JsonValue::List(items) => "["@ + listed_from(item_texts(items, 0), 0) + "]"@,
        JsonValue::Object(entries) => object_text(entry_texts(entries, 0)),
    }
}

/// The items of a list from one on, as canonical JSON.
pub open spec fn item_texts(items: Vec<JsonValue>, index: int) -> Seq<Seq<char>>
    decreases items, items@.len() - index,
{
    if index < 0 || index >= items@.len() {
        Seq::empty()
    } else {
        seq![canonical_text(items@[index])] + item_texts(items, index + 1)
    }
}

/// The entries of an object from one on, as they stand, with their values as canonical JSON.
pub open spec fn entry_texts(entries: Vec<JsonEntry>, index: int) -> Seq<WrittenEntryModel>
    decreases entries, entries@.len() - index,
{
    if index < 0 || index >= entries@.len() {
        Seq::empty()
    } else {
        seq![
            WrittenEntryModel {
                name: entries@[index].name@,
                text: canonical_text(entries@[index].value),
            },
        ] + entry_texts(entries, index + 1)
    }
}

/// Whether a value holds no number with a fraction, anywhere.
pub open spec fn is_whole(value: JsonValue) -> bool
    decreases value, 0int,
{
    match value {
        JsonValue::Decimal { .. } => false,
        JsonValue::List(items) => items_whole(items, 0),
        JsonValue::Object(entries) => entries_whole(entries, 0),
        _ => true,
    }
}

pub open spec fn items_whole(items: Vec<JsonValue>, index: int) -> bool
    decreases items, items@.len() - index,
{
    if index < 0 || index >= items@.len() {
        true
    } else {
        is_whole(items@[index]) && items_whole(items, index + 1)
    }
}

pub open spec fn entries_whole(entries: Vec<JsonEntry>, index: int) -> bool
    decreases entries, entries@.len() - index,
{
    if index < 0 || index >= entries@.len() {
        true
    } else {
        is_whole(entries@[index].value) && entries_whole(entries, index + 1)
    }
}


/// Writes texts with commas between them.
pub fn join_listed(texts: &Vec<String>) -> (text: String)
    ensures
        text@ == listed_from(texts.deep_view(), 0),
{
    let ghost model = texts.deep_view();
    let mut text: String = String::new();
    let mut index: usize = 0;
    assert(text@ + listed_from(model, 0) =~= listed_from(model, 0));
    while index < texts.len()
        invariant
            index <= texts.len(),
            model == texts.deep_view(),
            text@ + listed_from(model, index as int) == listed_from(model, 0),
        decreases texts.len() - index,
    {
        assert(model[index as int] == texts[index as int]@);
        let ghost before = text@;
        let ghost rest = listed_from(model, index + 1);
        if index > 0 {
            text.append(",");
            text.append(texts[index].as_str());
            assert(text@ + rest =~= before + (","@ + model[index as int] + rest));
        } else {
            text.append(texts[index].as_str());
            assert(text@ + rest =~= before + (model[index as int] + rest));
        }
        index += 1;
    }
    assert(text@ =~= listed_from(model, 0));
    text
}

/// Fills an object with entries.
fn fill_members(entries: &Vec<WrittenEntry>) -> (filled: Vec<WrittenEntry>)
    ensures
        filled.deep_view() == members(entries.deep_view(), entries.len() as int),
{
    let ghost model = entries.deep_view();
    let mut filled: Vec<WrittenEntry> = Vec::new();
    let mut index: usize = 0;
    assert(filled.deep_view() =~= members(model, 0));
    while index < entries.len()
        invariant
            index <= entries.len(),
            model == entries.deep_view(),
            filled.deep_view() == members(model, index as int),
        decreases entries.len() - index,
    {
        assert(model[index as int] == entries[index as int].deep_view());
        filled = put_named(&filled, entries[index].duplicate());
        index += 1;
    }
    filled
}

/// Writes an object with its members in the order of their names.
fn write_object(entries: Vec<WrittenEntry>) -> (text: String)
    ensures
        text@ == object_text(entries.deep_view()),
{
    let filled: Vec<WrittenEntry> = fill_members(&entries);
    let sorted: Vec<WrittenEntry> = rank(filled);
    let ghost model = sorted.deep_view();
    let mut texts: Vec<String> = Vec::new();
    let mut index: usize = 0;
    while index < sorted.len()
        invariant
            index <= sorted.len(),
            model == sorted.deep_view(),
            texts.len() == index,
            forall|i: int| 0 <= i < index ==> (#[trigger] texts[i])@ == member_texts(model)[i],
        decreases sorted.len() - index,
    {
        assert(model[index as int] == sorted[index as int].deep_view());
        let mut member: String = json_quoted_text(sorted[index].name.as_str());
        member.append(":");
        member.append(sorted[index].text.as_str());
        assert(member@ == member_texts(model)[index as int]);
        texts.push(member);
        index += 1;
    }
    assert(texts.deep_view() =~= member_texts(model));
    let inside: String = join_listed(&texts);
    let mut text: String = String::from_str("{");
    text.append(inside.as_str());
    text.append("}");
    text
}

/// Writes a value as canonical JSON.
fn write_value(value: &JsonValue) -> (text: String)
    ensures
        text@ == canonical_text(*value),
    decreases *value,
{
    match value {
        JsonValue::Null => "null".to_owned(),
        JsonValue::Bool(flag) => if *flag {
            "true".to_owned()
        } else {
            "false".to_owned()
        },
        JsonValue::Integer(number) => signed_decimal_text(*number),
        JsonValue::Natural(number) => decimal_text(*number),
        JsonValue::Decimal { text, .. } => text.clone(),
        JsonValue::Text(text) => json_quoted_text(text.as_str()),
        JsonValue::List(items) => {
            let mut texts: Vec<String> = Vec::new();
            let mut index: usize = 0;
            assert(texts.deep_view() + item_texts(*items, 0) =~= item_texts(*items, 0));
            while index < items.len()
                invariant
                    index <= items.len(),
                    *value == JsonValue::List(*items),
                    texts.deep_view() + item_texts(*items, index as int) == item_texts(*items, 0),
                decreases items.len() - index,
            {
                let ghost before = texts.deep_view();
                let ghost rest = item_texts(*items, index + 1);
                assert(decreases_to!(*value => value->List_0));
                assert(decreases_to!(*items => items@[index as int]));
                let own: String = write_value(&items[index]);
                let ghost own_model = own@;
                texts.push(own);
                assert(texts.deep_view() =~= before.push(own_model));
                assert(texts.deep_view() + rest =~= before + (seq![own_model] + rest));
                index += 1;
            }
            assert(texts.deep_view() =~= item_texts(*items, 0));
            let inside: String = join_listed(&texts);
            let mut text: String = String::from_str("[");
            text.append(inside.as_str());
            text.append("]");
            text
        },
        JsonValue::Object(entries) => {
            let mut written: Vec<WrittenEntry> = Vec::new();
            let mut index: usize = 0;
            assert(written.deep_view() + entry_texts(*entries, 0) =~= entry_texts(*entries, 0));
            while index < entries.len()
                invariant
                    index <= entries.len(),
                    *value == JsonValue::Object(*entries),
                    written.deep_view() + entry_texts(*entries, index as int) == entry_texts(*entries, 0),
                decreases entries.len() - index,
            {
                let ghost before = written.deep_view();
                let ghost rest = entry_texts(*entries, index + 1);
                assert(decreases_to!(*value => value->Object_0));
                assert(decreases_to!(*entries => entries@[index as int]));
                assert(decreases_to!(entries@[index as int] => entries@[index as int].value));
                let text: String = write_value(&entries[index].value);
                let entry = WrittenEntry { name: entries[index].name.clone(), text };
                let ghost own = entry.deep_view();
                written.push(entry);
                assert(written.deep_view() =~= before.push(own));
                assert(written.deep_view() + rest =~= before + (seq![own] + rest));
                index += 1;
            }
            assert(written.deep_view() =~= entry_texts(*entries, 0));
            write_object(written)
        },
    }
}

fn is_value_whole(value: &JsonValue) -> (result: bool)
    ensures
        result == is_whole(*value),
    decreases *value,
{
    match value {
        JsonValue::Decimal { .. } => false,
        JsonValue::List(items) => {
            let mut index: usize = 0;
            while index < items.len()
                invariant
                    index <= items.len(),
                    *value == JsonValue::List(*items),
                    items_whole(*items, 0) == items_whole(*items, index as int),
                decreases items.len() - index,
            {
                assert(decreases_to!(*value => value->List_0));
                assert(decreases_to!(*items => items@[index as int]));
                if !is_value_whole(&items[index]) {
                    return false;
                }
                index += 1;
            }
            true
        },
        JsonValue::Object(entries) => {
            let mut index: usize = 0;
            while index < entries.len()
                invariant
                    index <= entries.len(),
                    *value == JsonValue::Object(*entries),
                    entries_whole(*entries, 0) == entries_whole(*entries, index as int),
                decreases entries.len() - index,
            {
                assert(decreases_to!(*value => value->Object_0));
                assert(decreases_to!(*entries => entries@[index as int]));
                assert(decreases_to!(entries@[index as int] => entries@[index as int].value));
                if !is_value_whole(&entries[index].value) {
                    return false;
                }
                index += 1;
            }
            true
        },
        _ => true,
    }
}

// ---------------------------------------------------------------------------------------------
// Keys
// ---------------------------------------------------------------------------------------------
/// The content address of cached work: sixty-four lowercase hexadecimal digits.
#[derive(Clone, Debug, PartialEq, Eq)]
pub struct CacheKey {
    text: String,
}

impl View for CacheKey {
    type V = Seq<char>;

    closed spec fn view(&self) -> Seq<char> {
        self.text@
    }
}

impl CacheKey {
    pub fn parse(value: &str) -> (result: VideoResult<Self>)
        ensures
            refusal(result) == sha256_fault(value@, "cache_key"@, VideoErrorCode::InvalidCacheInput),
            result matches Ok(key) ==> key@ == value@ && is_sha256_hex(key@),
    {
        validate_sha256(value, "cache_key", VideoErrorCode::InvalidCacheInput)?;
        Ok(CacheKey { text: value.to_owned() })
    }

    pub fn as_str(&self) -> (text: &str)
        ensures
            text@ == self@,
    {
        self.text.as_str()
    }

    pub fn into_string(self) -> (text: String)
        ensures
            text@ == self@,
    {
        self.text
    }
}

/// An artifact that a stage consumed.
#[derive(Clone, Debug, PartialEq, Eq)]
pub struct CacheArtifactInput {
    pub role: String,
    pub sha256: String,
}

/// What a [`CacheArtifactInput`] holds, as mathematical values.
pub struct CacheArtifactModel {
    pub role: Seq<char>,
    pub sha256: Seq<char>,
}

impl DeepView for CacheArtifactInput {
    type V = CacheArtifactModel;

    open spec fn deep_view(&self) -> CacheArtifactModel {
        CacheArtifactModel { role: self.role@, sha256: self.sha256@ }
    }
}

impl Model for CacheArtifactInput {
    fn duplicate(&self) -> (copy: Self) {
        CacheArtifactInput { role: self.role.clone(), sha256: self.sha256.clone() }
    }

    fn same(&self, other: &Self) -> (equal: bool) {
        self.role.same(&other.role) && self.sha256.same(&other.sha256)
    }
}

/// Artifacts are ranked by role, then by digest.
impl Ranked for CacheArtifactInput {
    open spec fn before(left: CacheArtifactModel, right: CacheArtifactModel) -> bool {
        text_less(left.role, right.role) || (left.role == right.role && text_less(left.sha256, right.sha256))
    }

    fn comes_before(&self, other: &Self) -> (result: bool) {
        text_before(self.role.as_str(), other.role.as_str()) || (text_eq(
            self.role.as_str(),
            other.role.as_str(),
        ) && text_before(self.sha256.as_str(), other.sha256.as_str()))
    }

    proof fn before_is_an_order(a: CacheArtifactModel, b: CacheArtifactModel, c: CacheArtifactModel) {
        text_order(a.role, b.role, c.role);
        text_order(b.role, c.role, a.role);
        text_order(c.role, b.role, a.role);
        text_order(a.role, c.role, b.role);
        text_order(a.sha256, b.sha256, c.sha256);
        text_order(b.sha256, c.sha256, a.sha256);
        text_order(c.sha256, b.sha256, a.sha256);
        text_order(a.sha256, c.sha256, b.sha256);
    }
}

/// The version of a tool that a stage ran.
#[derive(Clone, Debug, PartialEq, Eq)]
pub struct ToolVersion {
    pub tool: String,
    pub version: String,
}

/// What a [`ToolVersion`] holds, as mathematical values.
pub struct ToolVersionModel {
    pub tool: Seq<char>,
    pub version: Seq<char>,
}

impl DeepView for ToolVersion {
    type V = ToolVersionModel;

    open spec fn deep_view(&self) -> ToolVersionModel {
        ToolVersionModel { tool: self.tool@, version: self.version@ }
    }
}

impl Model for ToolVersion {
    fn duplicate(&self) -> (copy: Self) {
        ToolVersion { tool: self.tool.clone(), version: self.version.clone() }
    }

    fn same(&self, other: &Self) -> (equal: bool) {
        self.tool.same(&other.tool) && self.version.same(&other.version)
    }
}

impl Named for ToolVersion {
    open spec fn name_of(model: ToolVersionModel) -> Seq<char> {
        model.tool
    }

    fn name(&self) -> (name: &String) {
        &self.tool
    }
}

/// Everything that a piece of cached work depends on.
#[derive(Debug, PartialEq, Eq)]
pub struct CacheKeyInput {
    pub stage: CacheStage,
    pub stage_version: String,
    pub scene_id: Option<String>,
    pub input_artifacts: Vec<CacheArtifactInput>,
    /// The tools that the stage ran; no tool stands twice.
    pub tool_versions: Vec<ToolVersion>,
    /// Only the manifest fields consumed by this stage, never the whole mutable manifest.
    pub manifest_slice: JsonValue,
    pub profile: JsonValue,
}

pub open spec fn artifact_fault(artifact: CacheArtifactModel) -> Option<Fault> {
    or_else(
        unless(
            !blank(artifact.role) && byte_len(artifact.role) <= 128,
            fault(VideoErrorCode::InvalidCacheInput, "cache artifact role is empty or too large"@),
        ),
        sha256_fault(
            artifact.sha256,
            "cache.input_artifacts.sha256"@,
            VideoErrorCode::InvalidCacheInput,
        ),
    )
}

pub open spec fn artifacts_fault_from(artifacts: Seq<CacheArtifactModel>, index: int) -> Option<Fault>
    decreases artifacts.len() - index,
{
    if index < 0 || index >= artifacts.len() {
        None
    } else {
        or_else(artifact_fault(artifacts[index]), artifacts_fault_from(artifacts, index + 1))
    }
}

pub open spec fn tool_fault(tool: ToolVersionModel) -> Option<Fault> {
    unless(
        !blank(tool.tool) && byte_len(tool.tool) <= 128 && !blank(tool.version) && byte_len(tool.version) <= 256,
        fault(VideoErrorCode::InvalidCacheInput, "cache tool name/version is empty or too large"@),
    )
}

pub open spec fn tools_fault_from(tools: Seq<ToolVersionModel>, index: int) -> Option<Fault>
    decreases tools.len() - index,
{
    if index < 0 || index >= tools.len() {
        None
    } else {
        or_else(tool_fault(tools[index]), tools_fault_from(tools, index + 1))
    }
}

pub open spec fn fraction_fault(value: JsonValue) -> Option<Fault> {
    unless(
        is_whole(value),
        fault(
            VideoErrorCode::InvalidCacheInput,
            "floating-point cache inputs are forbidden; use integer fixed-point values"@,
        ),
    )
}

/// Why no key can be made of an input.
pub open spec fn input_fault(input: CacheKeyInput) -> Option<Fault> {
    or_else(
        unless(
            !blank(input.stage_version@) && byte_len(input.stage_version@) <= 128,
            fault(
                VideoErrorCode::InvalidCacheInput,
                "cache stage_version must be non-empty and at most 128 bytes"@,
            ),
        ),
        or_else(
            optional_identifier_fault(input.scene_id.deep_view(), "cache.scene_id"@),
            or_else(
                artifacts_fault_from(input.input_artifacts.deep_view(), 0),
                or_else(
                    tools_fault_from(input.tool_versions.deep_view(), 0),
                    or_else(fraction_fault(input.manifest_slice), fraction_fault(input.profile)),
                ),
            ),
        ),
    )
}

/// An artifact as JSON.
pub open spec fn artifact_text(artifact: CacheArtifactModel) -> Seq<char> {
    "{\"role\":"@ + json_quoted(artifact.role) + ",\"sha256\":"@ + json_quoted(artifact.sha256) + "}"@
}

pub open spec fn artifact_texts(artifacts: Seq<CacheArtifactModel>) -> Seq<Seq<char>> {
    Seq::new(artifacts.len(), |i: int| artifact_text(artifacts[i]))
}

pub open spec fn tool_entries(tools: Seq<ToolVersionModel>) -> Seq<WrittenEntryModel> {
    Seq::new(
        tools.len(),
        |i: int| (WrittenEntryModel { name: tools[i].tool, text: json_quoted(tools[i].version) }),
    )
}

pub open spec fn optional_quoted(text: Option<Seq<char>>) -> Seq<char> {
    match text {
        Some(known) => json_quoted(known),
        None => "null"@,
    }
}

/// An input as canonical JSON: what order its artifacts, tools and members were given in does not
/// show.
pub open spec fn input_text(input: CacheKeyInput) -> Seq<char> {
    "{\"stage\":"@ + json_quoted(input.stage.name()) + ",\"stage_version\":"@ + json_quoted(
        input.stage_version@,
    ) + ",\"scene_id\":"@ + optional_quoted(input.scene_id.deep_view()) + ",\"input_artifacts\":["@
        + listed_from(
        artifact_texts(ranked::<CacheArtifactInput>(input.input_artifacts.deep_view())),
        0,
    ) + "],\"tool_versions\":"@ + object_text(tool_entries(input.tool_versions.deep_view()))
        + ",\"manifest_slice\":"@ + canonical_text(input.manifest_slice) + ",\"profile\":"@ + canonical_text(
        input.profile,
    ) + "}"@
}

/// What is hashed into a key: a namespace, the length of the input and the input.
pub open spec fn key_bytes(input: CacheKeyInput) -> Seq<u8> {
    let content = encode_utf8(input_text(input));
    encode_utf8("soundar-video-cache-v1\0"@) + big_endian(content.len() as u64) + content
}

fn check_artifacts(artifacts: &Vec<CacheArtifactInput>) -> (result: VideoResult<()>)
    ensures
        refusal(result) == artifacts_fault_from(artifacts.deep_view(), 0),
{
    let ghost model = artifacts.deep_view();
    let mut index: usize = 0;
    while index < artifacts.len()
        invariant
            index <= artifacts.len(),
            model == artifacts.deep_view(),
            artifacts_fault_from(model, 0) == artifacts_fault_from(model, index as int),
        decreases artifacts.len() - index,
    {
        assert(model[index as int] == artifacts[index as int].deep_view());
        let artifact: &CacheArtifactInput = &artifacts[index];
        if is_blank(artifact.role.as_str()) || bytes_in(artifact.role.as_str()) > 128 {
            return Err(
                VideoError::new(
                    VideoErrorCode::InvalidCacheInput,
                    "cache artifact role is empty or too large",
                ),
            );
        }
        validate_sha256(
            artifact.sha256.as_str(),
            "cache.input_artifacts.sha256",
            VideoErrorCode::InvalidCacheInput,
        )?;
        index += 1;
    }
    Ok(())
}

fn check_tools(tools: &Vec<ToolVersion>) -> (result: VideoResult<()>)
    ensures
        refusal(result) == tools_fault_from(tools.deep_view(), 0),
{
    let ghost model = tools.deep_view();
    let mut index: usize = 0;
    while index < tools.len()
        invariant
            index <= tools.len(),
            model == tools.deep_view(),
            tools_fault_from(model, 0) == tools_fault_from(model, index as int),
        decreases tools.len() - index,
    {
        assert(model[index as int] == tools[index as int].deep_view());
        let tool: &ToolVersion = &tools[index];
        if is_blank(tool.tool.as_str()) || bytes_in(tool.tool.as_str()) > 128 || is_blank(tool.version.as_str())
            || bytes_in(tool.version.as_str()) > 256 {
            return Err(
                VideoError::new(
                    VideoErrorCode::InvalidCacheInput,
                    "cache tool name/version is empty or too large",
                ),
            );
        }
        index += 1;
    }
    Ok(())
}

fn check_whole(value: &JsonValue) -> (result: VideoResult<()>)
    ensures
        refusal(result) == fraction_fault(*value),
{
    if !is_value_whole(value) {
        return Err(
            VideoError::new(
                VideoErrorCode::InvalidCacheInput,
                "floating-point cache inputs are forbidden; use integer fixed-point values",
            ),
        );
    }
    Ok(())
}

fn validate_cache_input(input: &CacheKeyInput) -> (result: VideoResult<()>)
    ensures
        refusal(result) == input_fault(*input),
{
    if is_blank(input.stage_version.as_str()) || bytes_in(input.stage_version.as_str()) > 128 {
        return Err(
            VideoError::new(
                VideoErrorCode::InvalidCacheInput,
                "cache stage_version must be non-empty and at most 128 bytes",
            ),
        );
    }
    validate_optional_identifier(&input.scene_id, "cache.scene_id")?;
    check_artifacts(&input.input_artifacts)?;
    check_tools(&input.tool_versions)?;
    check_whole(&input.manifest_slice)?;
    check_whole(&input.profile)
}

fn write_artifacts(artifacts: &Vec<CacheArtifactInput>) -> (text: String)
    ensures
        text@ == listed_from(
            artifact_texts(ranked::<CacheArtifactInput>(artifacts.deep_view())),
            0,
        ),
{
    let sorted: Vec<CacheArtifactInput> = rank(artifacts.duplicate());
    let ghost model = sorted.deep_view();
    let mut texts: Vec<String> = Vec::new();
    let mut index: usize = 0;
    while index < sorted.len()
        invariant
            index <= sorted.len(),
            model == sorted.deep_view(),
            texts.len() == index,
            forall|i: int| 0 <= i < index ==> (#[trigger] texts[i])@ == artifact_texts(model)[i],
        decreases sorted.len() - index,
    {
        assert(model[index as int] == sorted[index as int].deep_view());
        let role: String = json_quoted_text(sorted[index].role.as_str());
        let digest: String = json_quoted_text(sorted[index].sha256.as_str());
        let mut text: String = String::from_str("{\"role\":");
        text.append(role.as_str());
        text.append(",\"sha256\":");
        text.append(digest.as_str());
        text.append("}");
        assert(text@ == artifact_texts(model)[index as int]);
        texts.push(text);
        index += 1;
    }
    assert(texts.deep_view() =~= artifact_texts(model));
    join_listed(&texts)
}

fn write_tools(tools: &Vec<ToolVersion>) -> (text: String)
    ensures
        text@ == object_text(tool_entries(tools.deep_view())),
{
    let ghost model = tools.deep_view();
    let mut entries: Vec<WrittenEntry> = Vec::new();
    let mut index: usize = 0;
    while index < tools.len()
        invariant
            index <= tools.len(),
            model == tools.deep_view(),
            entries.len() == index,
            forall|i: int| 0 <= i < index ==> (#[trigger] entries[i]).deep_view() == tool_entries(model)[i],
        decreases tools.len() - index,
    {
        assert(model[index as int] == tools[index as int].deep_view());
        let entry = WrittenEntry {
            name: tools[index].tool.clone(),
            text: json_quoted_text(tools[index].version.as_str()),
        };
        assert(entry.deep_view() == tool_entries(model)[index as int]);
        entries.push(entry);
        index += 1;
    }
    assert(entries.deep_view() =~= tool_entries(model));
    write_object(entries)
}

fn write_input(input: &CacheKeyInput) -> (text: String)
    ensures
        text@ == input_text(*input),
{
    let stage: String = json_quoted_text(input.stage.as_str());
    let version: String = json_quoted_text(input.stage_version.as_str());
    let scene: String = match &input.scene_id {
        Some(id) => json_quoted_text(id.as_str()),
        None => "null".to_owned(),
    };
    let artifacts: String = write_artifacts(&input.input_artifacts);
    let tools: String = write_tools(&input.tool_versions);
    let slice: String = write_value(&input.manifest_slice);
    let profile: String = write_value(&input.profile);
    let mut text: String = String::from_str("{\"stage\":");
    text.append(stage.as_str());
    text.append(",\"stage_version\":");
    text.append(version.as_str());
    text.append(",\"scene_id\":");
    text.append(scene.as_str());
    text.append(",\"input_artifacts\":[");
    text.append(artifacts.as_str());
    text.append("],\"tool_versions\":");
    text.append(tools.as_str());
    text.append(",\"manifest_slice\":");
    text.append(slice.as_str());
    text.append(",\"profile\":");
    text.append(profile.as_str());
    text.append("}");
    text
}

impl CacheKeyInput {
    /// The content address of work that depends on this input and nothing else.
    pub fn key(&self) -> (result: VideoResult<CacheKey>)
        ensures
            refusal(result) == input_fault(*self),
            result matches Ok(key) ==> key@ == sha256_hex(key_bytes(*self)) && is_sha256_hex(key@),
    {
        validate_cache_input(self)?;
        let serialized: String = write_input(self);
        let content: &[u8] = serialized.as_str().as_bytes();
        let mut bytes: Vec<u8> = Vec::new();
        push_text(&mut bytes, "soundar-video-cache-v1\0");
        push_unsigned(&mut bytes, content.len() as u64);
        push_bytes(&mut bytes, content);
        assert(bytes@ =~= key_bytes(*self));
        let digest: String = sha256_hex_text(bytes.as_slice());
        CacheKey::parse(digest.as_str())
    }
}

/// Builds a key step by step.
#[derive(Debug)]
pub struct CacheKeyBuilder {
    input: CacheKeyInput,
}

impl CacheKeyBuilder {
    /// The input that the builder has gathered.
    pub closed spec fn gathered(self) -> CacheKeyInput {
        self.input
    }

    pub fn new(stage: CacheStage, stage_version: &str) -> (builder: Self)
        ensures
            builder.gathered().stage == stage,
            builder.gathered().stage_version@ == stage_version@,
            builder.gathered().scene_id is None,
            builder.gathered().input_artifacts@.len() == 0,
            builder.gathered().tool_versions@.len() == 0,
            builder.gathered().manifest_slice matches JsonValue::Object(entries) && entries@.len() == 0,
            builder.gathered().profile matches JsonValue::Object(entries) && entries@.len() == 0,
    {
        CacheKeyBuilder {
            input: CacheKeyInput {
                stage,
                stage_version: stage_version.to_owned(),
                scene_id: None,
                input_artifacts: Vec::new(),
                tool_versions: Vec::new(),
                manifest_slice: JsonValue::Object(Vec::new()),
                profile: JsonValue::Object(Vec::new()),
            },
        }
    }

    pub fn for_scene(self, scene_id: &str) -> (builder: Self)
        ensures
            builder.gathered().scene_id.deep_view() == Some(scene_id@),
            builder.gathered() == (CacheKeyInput {
                scene_id: builder.gathered().scene_id,
                ..self.gathered()
            }),
    {
        CacheKeyBuilder {
            input: CacheKeyInput { scene_id: Some(scene_id.to_owned()), ..self.input },
        }
    }

    pub fn artifact(self, role: &str, sha256: &str) -> (builder: Self)
        ensures
            builder.gathered().input_artifacts.deep_view() == self.gathered().input_artifacts.deep_view().push(
                CacheArtifactModel { role: role@, sha256: sha256@ },
            ),
            builder.gathered() == (CacheKeyInput {
                input_artifacts: builder.gathered().input_artifacts,
                ..self.gathered()
            }),
    {
        let artifact = CacheArtifactInput { role: role.to_owned(), sha256: sha256.to_owned() };
        let input_artifacts: Vec<CacheArtifactInput> = with_last(
            &self.input.input_artifacts,
            artifact,
        );
        CacheKeyBuilder { input: CacheKeyInput { input_artifacts, ..self.input } }
    }

    /// Records the version of a tool; a second version of the same tool takes the first one's place.
    pub fn tool_version(self, tool: &str, version: &str) -> (builder: Self)
        ensures
            builder.gathered().tool_versions.deep_view() == put::<ToolVersion>(
                self.gathered().tool_versions.deep_view(),
                (ToolVersionModel { tool: tool@, version: version@ }),
            ),
            builder.gathered() == (CacheKeyInput {
                tool_versions: builder.gathered().tool_versions,
                ..self.gathered()
            }),
    {
        let entry = ToolVersion { tool: tool.to_owned(), version: version.to_owned() };
        let tool_versions: Vec<ToolVersion> = put_named(&self.input.tool_versions, entry);
        CacheKeyBuilder { input: CacheKeyInput { tool_versions, ..self.input } }
    }

    pub fn manifest_slice(self, value: JsonValue) -> (builder: Self)
        ensures
            builder.gathered() == (CacheKeyInput { manifest_slice: value, ..self.gathered() }),
    {
        CacheKeyBuilder { input: CacheKeyInput { manifest_slice: value, ..self.input } }
    }

    pub fn profile(self, value: JsonValue) -> (builder: Self)
        ensures
            builder.gathered() == (CacheKeyInput { profile: value, ..self.gathered() }),
    {
        CacheKeyBuilder { input: CacheKeyInput { profile: value, ..self.input } }
    }

    pub fn build(self) -> (result: VideoResult<CacheKey>)
        ensures
            refusal(result) == input_fault(self.gathered()),
            result matches Ok(key) ==> key@ == sha256_hex(key_bytes(self.gathered())) && is_sha256_hex(key@),
    {
        self.input.key()
    }
}


// ---------------------------------------------------------------------------------------------
// What order does not show
// ---------------------------------------------------------------------------------------------
/// Whether no two entries have one name.
pub open spec fn distinct_members(entries: Seq<WrittenEntryModel>) -> bool {
    forall|i: int, j: int| 0 <= i < j < entries.len() ==> (#[trigger] entries[i]).name != (#[trigger] entries[j]).name
}

/// Entries of different names are the members that they fill an object with.
proof fn lemma_members(entries: Seq<WrittenEntryModel>, count: int)
    requires
        distinct_members(entries),
        0 <= count <= entries.len(),
    ensures
        members(entries, count) == entries.take(count),
    decreases count,
{
    if count > 0 {
        lemma_members(entries, count - 1);
        let before = entries.take(count - 1);
        let own = entries[count - 1];
        lemma_place_from::<WrittenEntry>(before, own.name, 0);
        if holds::<WrittenEntry>(before, own.name) {
            let place = place_of::<WrittenEntry>(before, own.name)->0;
            assert(before[place] == entries[place]);
        }
        assert(entries.take(count) =~= before.push(own));
    } else {
        assert(entries.take(0) =~= Seq::empty());
    }
}

/// The order in which the members of an object were given does not show in it.
pub proof fn member_order_does_not_matter(left: Seq<WrittenEntryModel>, right: Seq<WrittenEntryModel>)
    requires
        distinct_members(left),
        distinct_members(right),
        left.to_set() == right.to_set(),
    ensures
        object_text(left) == object_text(right),
{
    lemma_members(left, left.len() as int);
    lemma_members(right, right.len() as int);
    assert(left.take(left.len() as int) =~= left);
    assert(right.take(right.len() as int) =~= right);
    same_items_once(left, right);
    assert forall|x: WrittenEntryModel, y: WrittenEntryModel| !#[trigger] WrittenEntry::before(x, y)
        && !WrittenEntry::before(y, x) implies x == y by {
        text_order(x.name, y.name, x.name);
        text_order(x.text, y.text, x.text);
    }
    ranking_forgets_the_order::<WrittenEntry>(left, right);
}

/// Whether two values are the same but for the order in which the members of their objects, at any
/// depth, were given.
pub open spec fn same_value(left: JsonValue, right: JsonValue) -> bool
    decreases left, 0int,
{
    match (left, right) {
        (JsonValue::Null, JsonValue::Null) => true,
        (JsonValue::Bool(a), JsonValue::Bool(b)) => a == b,
        (JsonValue::Integer(a), JsonValue::Integer(b)) => a == b,
        (JsonValue::Natural(a), JsonValue::Natural(b)) => a == b,
        (JsonValue::Decimal { text: a, .. }, JsonValue::Decimal { text: b, .. }) => a@ == b@,
        (JsonValue::Text(a), JsonValue::Text(b)) => a@ == b@,
        (JsonValue::List(a), JsonValue::List(b)) => a@.len() == b@.len() && same_items(a, b, 0),
        (JsonValue::Object(a), JsonValue::Object(b)) => {
            &&& a@.len() == b@.len()
            &&& distinct_names(a@)
            &&& distinct_names(b@)
            &&& same_entries(a, b, 0)
        },
        _ => false,
    }
}

/// Whether no two entries have one name.
pub open spec fn distinct_names(entries: Seq<JsonEntry>) -> bool {
    forall|i: int, j: int| 0 <= i < j < entries.len() ==> (#[trigger] entries[i]).name@ != (#[trigger] entries[j]).name@
}

/// Whether the items from one on are the same, one by one.
pub open spec fn same_items(left: Vec<JsonValue>, right: Vec<JsonValue>, index: int) -> bool
    decreases left, left@.len() - index,
{
    if index < 0 || index >= left@.len() {
        true
    } else {
        same_value(left@[index], right@[index]) && same_items(left, right, index + 1)
    }
}

/// Whether each entry from one on has one of its name, with the same value, somewhere among others.
pub open spec fn same_entries(left: Vec<JsonEntry>, right: Vec<JsonEntry>, index: int) -> bool
    decreases left, left@.len() - index,
{
    if index < 0 || index >= left@.len() {
        true
    } else {
        &&& exists|j: int|
            0 <= j < right@.len() && (#[trigger] right@[j]).name@ == left@[index].name@ && same_value(
                left@[index].value,
                right@[j].value,
            )
        &&& same_entries(left, right, index + 1)
    }
}

/// The order in which the members of objects were given shows nowhere in a value, however deep they
/// lie.
pub proof fn order_shows_at_no_depth(left: JsonValue, right: JsonValue)
    requires
        same_value(left, right),
    ensures
        canonical_text(left) == canonical_text(right),
        is_whole(left) ==> is_whole(right),
    decreases left, 0int,
{
    match (left, right) {
        (JsonValue::List(a), JsonValue::List(b)) => {
            lemma_same_items(a, b, 0);
        },
        (JsonValue::Object(a), JsonValue::Object(b)) => {
            let first = entry_texts(a, 0);
            let second = entry_texts(b, 0);
            lemma_same_entries(a, b, 0);
            lemma_entry_texts(a, 0);
            lemma_entry_texts(b, 0);
            assert(first.no_duplicates());
            assert(second.no_duplicates());
            assert forall|entry: WrittenEntryModel| first.to_set().contains(entry) implies second.to_set().contains(
                entry,
            ) by {
                let i = choose|i: int| 0 <= i < first.len() && first[i] == entry;
                assert(second.contains(first[i]));
            }
            first.unique_seq_to_set();
            second.unique_seq_to_set();
            vstd::set_lib::lemma_subset_equality(first.to_set(), second.to_set());
            member_order_does_not_matter(first, second);
            if entries_whole(a, 0) {
                assert forall|j: int| 0 <= j < b@.len() implies is_whole((#[trigger] b@[j]).value) by {
                    assert(second.to_set().contains(second[j]));
                    assert(first.contains(second[j]));
                    let i = choose|i: int| 0 <= i < first.len() && first[i] == second[j];
                    let k = lemma_partner(a, b, 0, i);
                    assert(b@[k].name@ == b@[j].name@);
                    order_shows_at_no_depth(a@[i].value, b@[j].value);
                    lemma_whole_at(a, 0, i);
                }
                lemma_all_whole(b, 0);
            }
        },
        _ => {},
    }
}

proof fn lemma_same_items(left: Vec<JsonValue>, right: Vec<JsonValue>, index: int)
    requires
        0 <= index,
        left@.len() == right@.len(),
        same_items(left, right, index),
    ensures
        item_texts(left, index) == item_texts(right, index),
        items_whole(left, index) ==> items_whole(right, index),
    decreases left, left@.len() - index,
{
    if index < left@.len() {
        order_shows_at_no_depth(left@[index], right@[index]);
        lemma_same_items(left, right, index + 1);
    }
}

/// What stands at each place of the entries.
proof fn lemma_entry_texts(entries: Vec<JsonEntry>, index: int)
    requires
        0 <= index <= entries@.len(),
    ensures
        entry_texts(entries, index).len() == entries@.len() - index,
        forall|i: int|
            0 <= i < entries@.len() - index ==> #[trigger] entry_texts(entries, index)[i] == (WrittenEntryModel {
                name: entries@[index + i].name@,
                text: canonical_text(entries@[index + i].value),
            }),
    decreases entries@.len() - index,
{
    if index < entries@.len() {
        lemma_entry_texts(entries, index + 1);
        let rest = entry_texts(entries, index + 1);
        let all = entry_texts(entries, index);
        assert forall|i: int| 0 <= i < entries@.len() - index implies #[trigger] all[i] == (WrittenEntryModel {
            name: entries@[index + i].name@,
            text: canonical_text(entries@[index + i].value),
        }) by {
            if i > 0 {
                assert(all[i] == rest[i - 1]);
            }
        }
    }
}

proof fn lemma_same_entries(left: Vec<JsonEntry>, right: Vec<JsonEntry>, index: int)
    requires
        0 <= index <= left@.len(),
        left@.len() == right@.len(),
        same_entries(left, right, index),
    ensures
        forall|i: int|
            0 <= i < left@.len() - index ==> entry_texts(right, 0).contains(#[trigger] entry_texts(left, index)[i]),
    decreases left, left@.len() - index,
{
    lemma_entry_texts(left, index);
    lemma_entry_texts(right, 0);
    if index < left@.len() {
        lemma_same_entries(left, right, index + 1);
        lemma_entry_texts(left, index + 1);
        let j = choose|j: int|
            0 <= j < right@.len() && (#[trigger] right@[j]).name@ == left@[index].name@ && same_value(
                left@[index].value,
                right@[j].value,
            );
        order_shows_at_no_depth(left@[index].value, right@[j].value);
        assert(entry_texts(right, 0)[j] == entry_texts(left, index)[0]);
        assert forall|i: int| 0 <= i < left@.len() - index implies entry_texts(right, 0).contains(
            #[trigger] entry_texts(left, index)[i],
        ) by {
            if i > 0 {
                assert(entry_texts(left, index)[i] == entry_texts(left, index + 1)[i - 1]);
            }
        }
    }
}

proof fn lemma_partner(left: Vec<JsonEntry>, right: Vec<JsonEntry>, from: int, index: int) -> (partner: int)
    requires
        0 <= from <= index < left@.len(),
        same_entries(left, right, from),
    ensures
        0 <= partner < right@.len(),
        right@[partner].name@ == left@[index].name@,
        same_value(left@[index].value, right@[partner].value),
    decreases index - from,
{
    if from < index {
        lemma_partner(left, right, from + 1, index)
    } else {
        choose|j: int|
            0 <= j < right@.len() && (#[trigger] right@[j]).name@ == left@[index].name@ && same_value(
                left@[index].value,
                right@[j].value,
            )
    }
}

proof fn lemma_all_whole(entries: Vec<JsonEntry>, index: int)
    requires
        0 <= index,
        forall|i: int| 0 <= i < entries@.len() ==> is_whole((#[trigger] entries@[i]).value),
    ensures
        entries_whole(entries, index),
    decreases entries@.len() - index,
{
    if index < entries@.len() {
        lemma_all_whole(entries, index + 1);
    }
}

proof fn lemma_whole_at(entries: Vec<JsonEntry>, from: int, index: int)
    requires
        0 <= from <= index < entries@.len(),
        entries_whole(entries, from),
    ensures
        is_whole(entries@[index].value),
    decreases index - from,
{
    if from < index {
        lemma_whole_at(entries, from + 1, index);
    }
}

proof fn lemma_artifact_usable(artifacts: Seq<CacheArtifactModel>, from: int, index: int)
    requires
        artifacts_fault_from(artifacts, from) is None,
        0 <= from <= index < artifacts.len(),
    ensures
        artifact_fault(artifacts[index]) is None,
    decreases index - from,
{
    if from < index {
        lemma_artifact_usable(artifacts, from + 1, index);
    }
}

proof fn lemma_artifacts_stay_usable(left: Seq<CacheArtifactModel>, right: Seq<CacheArtifactModel>, index: int)
    requires
        0 <= index,
        left.to_multiset() == right.to_multiset(),
        artifacts_fault_from(left, 0) is None,
    ensures
        artifacts_fault_from(right, index) is None,
    decreases right.len() - index,
{
    broadcast use vstd::seq_lib::group_to_multiset_ensures;

    if index < right.len() {
        assert(right.contains(right[index]));
        assert(right.to_multiset().count(right[index]) > 0);
        assert(left.contains(right[index]));
        let i = choose|i: int| 0 <= i < left.len() && left[i] == right[index];
        lemma_artifact_usable(left, 0, i);
        lemma_artifacts_stay_usable(left, right, index + 1);
    }
}

proof fn lemma_tool_usable(tools: Seq<ToolVersionModel>, from: int, index: int)
    requires
        tools_fault_from(tools, from) is None,
        0 <= from <= index < tools.len(),
    ensures
        tool_fault(tools[index]) is None,
    decreases index - from,
{
    if from < index {
        lemma_tool_usable(tools, from + 1, index);
    }
}

proof fn lemma_tools_stay_usable(left: Seq<ToolVersionModel>, right: Seq<ToolVersionModel>, index: int)
    requires
        0 <= index,
        left.to_set() == right.to_set(),
        tools_fault_from(left, 0) is None,
    ensures
        tools_fault_from(right, index) is None,
    decreases right.len() - index,
{
    if index < right.len() {
        assert(right.to_set().contains(right[index]));
        assert(left.to_set().contains(right[index]));
        let i = choose|i: int| 0 <= i < left.len() && left[i] == right[index];
        lemma_tool_usable(left, 0, i);
        lemma_tools_stay_usable(left, right, index + 1);
    }
}

/// The tools of an input as members: different tools, and the same of both inputs.
proof fn lemma_tool_entries(left: Seq<ToolVersionModel>, right: Seq<ToolVersionModel>)
    requires
        distinct_tools(left),
        distinct_tools(right),
        left.to_set() == right.to_set(),
    ensures
        distinct_members(tool_entries(left)),
        distinct_members(tool_entries(right)),
        tool_entries(left).to_set() == tool_entries(right).to_set(),
{
    assert forall|entry: WrittenEntryModel| tool_entries(left).to_set().contains(entry) <==> tool_entries(
        right,
    ).to_set().contains(entry) by {
        if tool_entries(left).contains(entry) {
            lemma_tool_entry(left, right, entry);
        }
        if tool_entries(right).contains(entry) {
            lemma_tool_entry(right, left, entry);
        }
    }
    assert(tool_entries(left).to_set() =~= tool_entries(right).to_set());
}

proof fn lemma_tool_entry(left: Seq<ToolVersionModel>, right: Seq<ToolVersionModel>, entry: WrittenEntryModel)
    requires
        left.to_set() == right.to_set(),
        tool_entries(left).contains(entry),
    ensures
        tool_entries(right).contains(entry),
{
    let i = choose|i: int| 0 <= i < left.len() && tool_entries(left)[i] == entry;
    assert(left.to_set().contains(left[i]));
    assert(right.to_set().contains(left[i]));
    let j = choose|j: int| 0 <= j < right.len() && right[j] == left[i];
    assert(tool_entries(right)[j] == entry);
}

/// Whether no tool stands twice.
pub open spec fn distinct_tools(tools: Seq<ToolVersionModel>) -> bool {
    forall|i: int, j: int| 0 <= i < j < tools.len() ==> (#[trigger] tools[i]).tool != (#[trigger] tools[j]).tool
}

/// A key does not depend on the order in which artifacts, tools and members of objects, at any depth,
/// were given.
pub proof fn insertion_order_does_not_matter(left: CacheKeyInput, right: CacheKeyInput)
    requires
        left.stage == right.stage,
        left.stage_version@ == right.stage_version@,
        left.scene_id.deep_view() == right.scene_id.deep_view(),
        left.input_artifacts.deep_view().to_multiset() == right.input_artifacts.deep_view().to_multiset(),
        distinct_tools(left.tool_versions.deep_view()),
        distinct_tools(right.tool_versions.deep_view()),
        left.tool_versions.deep_view().to_set() == right.tool_versions.deep_view().to_set(),
        same_value(left.manifest_slice, right.manifest_slice),
        same_value(left.profile, right.profile),
    ensures
        input_fault(left) is None ==> input_fault(right) is None,
        key_bytes(left) == key_bytes(right),
        sha256_hex(key_bytes(left)) == sha256_hex(key_bytes(right)),
{
    if input_fault(left) is None {
        lemma_artifacts_stay_usable(left.input_artifacts.deep_view(), right.input_artifacts.deep_view(), 0);
        lemma_tools_stay_usable(left.tool_versions.deep_view(), right.tool_versions.deep_view(), 0);
    }
    assert forall|x: CacheArtifactModel, y: CacheArtifactModel| !#[trigger] CacheArtifactInput::before(x, y)
        && !CacheArtifactInput::before(y, x) implies x == y by {
        text_order(x.role, y.role, x.role);
        text_order(x.sha256, y.sha256, x.sha256);
    }
    ranking_forgets_the_order::<CacheArtifactInput>(
        left.input_artifacts.deep_view(),
        right.input_artifacts.deep_view(),
    );
    lemma_tool_entries(left.tool_versions.deep_view(), right.tool_versions.deep_view());
    member_order_does_not_matter(
        tool_entries(left.tool_versions.deep_view()),
        tool_entries(right.tool_versions.deep_view()),
    );
    order_shows_at_no_depth(left.manifest_slice, right.manifest_slice);
    order_shows_at_no_depth(left.profile, right.profile);
}

// ---------------------------------------------------------------------------------------------
// What a change makes stale
// ---------------------------------------------------------------------------------------------
/// What changed in a project.
#[derive(Clone, Debug, PartialEq, Eq)]
pub enum ManifestChange {
    Source,
    Transcript,
    ClipSelection,
    ScenePlan,
    SceneScript { scene_id: String },
    Voice { scene_id: String },
    Music { scene_id: Option<String> },
    CaptionContent { scene_id: Option<String> },
    CaptionStyle,
    Layout { scene_id: Option<String> },
    AudioMix { scene_id: Option<String> },
    Tracking { scene_id: Option<String> },
    RenderProfile,
    ProvenanceOnly,
}

/// What a change makes stale: stages of the whole project, and stages of one scene.
pub struct Effect {
    pub everywhere: Seq<CacheStage>,
    pub scene_id: Option<Seq<char>>,
    pub in_scene: Seq<CacheStage>,
}

/// The renders that are put together from all scenes.
pub open spec fn aggregate_renders() -> Seq<CacheStage> {
    seq![CacheStage::PreviewRender, CacheStage::FinalRender, CacheStage::PublishPackage]
}

pub open spec fn effect_everywhere(everywhere: Seq<CacheStage>) -> Effect {
    Effect { everywhere, scene_id: None, in_scene: Seq::empty() }
}

/// A change in one scene makes stages of that scene stale, and the renders put together from all.
pub open spec fn effect_in_scene(scene_id: Seq<char>, in_scene: Seq<CacheStage>) -> Effect {
    Effect { everywhere: aggregate_renders(), scene_id: Some(scene_id), in_scene }
}

/// A change in one scene, or in none and then everywhere.
pub open spec fn effect_in_some_scene(scene_id: Option<String>, in_scene: Seq<CacheStage>) -> Effect {
    match scene_id {
        Some(id) => effect_in_scene(id@, in_scene),
        None => effect_everywhere(in_scene + aggregate_renders()),
    }
}

/// What a change makes stale.
pub open spec fn effect_of(change: ManifestChange) -> Effect {
    match change {
        ManifestChange::Source => effect_everywhere(
            seq![
                CacheStage::Probe,
                CacheStage::Proxy,
                CacheStage::Thumbnail,
                CacheStage::Waveform,
                CacheStage::Transcription,
                CacheStage::SceneAnalysis,
                CacheStage::Plan,
                CacheStage::Tracking,
                CacheStage::Captions,
                CacheStage::AudioMix,
                CacheStage::SceneRender,
            ] + aggregate_renders(),
        ),
        ManifestChange::Transcript => effect_everywhere(
            seq![
                CacheStage::SceneAnalysis,
                CacheStage::Plan,
                CacheStage::Captions,
                CacheStage::SceneRender,
            ] + aggregate_renders(),
        ),
        ManifestChange::ClipSelection => effect_everywhere(
            seq![
                CacheStage::Plan,
                CacheStage::Tracking,
                CacheStage::Captions,
                CacheStage::AudioMix,
                CacheStage::SceneRender,
            ] + aggregate_renders(),
        ),
        ManifestChange::ScenePlan => effect_everywhere(
            seq![
                CacheStage::Plan,
                CacheStage::Speech,
                CacheStage::Music,
                CacheStage::Image,
                CacheStage::Tracking,
                CacheStage::Captions,
                CacheStage::AudioMix,
                CacheStage::SceneRender,
            ] + aggregate_renders(),
        ),
        ManifestChange::SceneScript { scene_id } => effect_in_scene(
            scene_id@,
            seq![CacheStage::Speech, CacheStage::Captions, CacheStage::SceneRender],
        ),
        ManifestChange::Voice { scene_id } => effect_in_scene(
            scene_id@,
            seq![CacheStage::Speech, CacheStage::AudioMix, CacheStage::SceneRender],
        ),
        ManifestChange::Music { scene_id } => effect_in_some_scene(
            scene_id,
            seq![CacheStage::Music, CacheStage::AudioMix, CacheStage::SceneRender],
        ),
        ManifestChange::CaptionContent { scene_id } => effect_in_some_scene(
            scene_id,
            seq![CacheStage::Captions, CacheStage::SceneRender],
        ),
        ManifestChange::CaptionStyle => effect_everywhere(
            seq![CacheStage::Captions, CacheStage::SceneRender] + aggregate_renders(),
        ),
        ManifestChange::Layout { scene_id } => effect_in_some_scene(
            scene_id,
            seq![CacheStage::Tracking, CacheStage::SceneRender],
        ),
        ManifestChange::AudioMix { scene_id } => effect_in_some_scene(
            scene_id,
            seq![CacheStage::AudioMix, CacheStage::SceneRender],
        ),
        ManifestChange::Tracking { scene_id } => effect_in_some_scene(
            scene_id,
            seq![CacheStage::Tracking, CacheStage::SceneRender],
        ),
        ManifestChange::RenderProfile => effect_everywhere(
            seq![CacheStage::SceneRender] + aggregate_renders(),
        ),
        ManifestChange::ProvenanceOnly => effect_everywhere(seq![CacheStage::PublishPackage]),
    }
}

impl CacheStage {
    /// The place of a stage in the order of the stages.
    pub open spec fn place(self) -> int {
        match self {
            CacheStage::Probe => 0,
            CacheStage::Proxy => 1,
            CacheStage::Thumbnail => 2,
            CacheStage::Waveform => 3,
            CacheStage::Transcription => 4,
            CacheStage::SceneAnalysis => 5,
            CacheStage::Plan => 6,
            CacheStage::Speech => 7,
            CacheStage::Music => 8,
            CacheStage::Image => 9,
            CacheStage::Tracking => 10,
            CacheStage::Captions => 11,
            CacheStage::AudioMix => 12,
            CacheStage::SceneRender => 13,
            CacheStage::PreviewRender => 14,
            CacheStage::FinalRender => 15,
            CacheStage::PublishPackage => 16,
        }
    }

    fn number(self) -> (number: u8)
        ensures
            number == self.place(),
    {
        match self {
            CacheStage::Probe => 0,
            CacheStage::Proxy => 1,
            CacheStage::Thumbnail => 2,
            CacheStage::Waveform => 3,
            CacheStage::Transcription => 4,
            CacheStage::SceneAnalysis => 5,
            CacheStage::Plan => 6,
            CacheStage::Speech => 7,
            CacheStage::Music => 8,
            CacheStage::Image => 9,
            CacheStage::Tracking => 10,
            CacheStage::Captions => 11,
            CacheStage::AudioMix => 12,
            CacheStage::SceneRender => 13,
            CacheStage::PreviewRender => 14,
            CacheStage::FinalRender => 15,
            CacheStage::PublishPackage => 16,
        }
    }
}

impl DeepView for CacheStage {
    type V = CacheStage;

    open spec fn deep_view(&self) -> CacheStage {
        *self
    }
}

impl Model for CacheStage {
    fn duplicate(&self) -> (copy: Self) {
        *self
    }

    fn same(&self, other: &Self) -> (equal: bool) {
        *self == *other
    }
}

/// Stages are ranked in the order of the stages.
impl Ranked for CacheStage {
    open spec fn before(left: CacheStage, right: CacheStage) -> bool {
        left.place() < right.place()
    }

    fn comes_before(&self, other: &Self) -> (result: bool) {
        self.number() < other.number()
    }

    proof fn before_is_an_order(a: CacheStage, b: CacheStage, c: CacheStage) {
    }
}

/// A stage of one scene.
#[derive(Clone, Debug, PartialEq, Eq)]
pub struct SceneStage {
    pub scene_id: String,
    pub stage: CacheStage,
}

impl Model for SceneStage {
    fn duplicate(&self) -> (copy: Self) {
        SceneStage { scene_id: self.scene_id.clone(), stage: self.stage }
    }

    fn same(&self, other: &Self) -> (equal: bool) {
        self.scene_id.same(&other.scene_id) && self.stage == other.stage
    }
}

/// Stages of scenes are ranked by scene, then in the order of the stages.
impl Ranked for SceneStage {
    open spec fn before(left: (Seq<char>, CacheStage), right: (Seq<char>, CacheStage)) -> bool {
        text_less(left.0, right.0) || (left.0 == right.0 && left.1.place() < right.1.place())
    }

    fn comes_before(&self, other: &Self) -> (result: bool) {
        text_before(self.scene_id.as_str(), other.scene_id.as_str()) || (text_eq(
            self.scene_id.as_str(),
            other.scene_id.as_str(),
        ) && self.stage.number() < other.stage.number())
    }

    proof fn before_is_an_order(
        a: (Seq<char>, CacheStage),
        b: (Seq<char>, CacheStage),
        c: (Seq<char>, CacheStage),
    ) {
        text_order(a.0, b.0, c.0);
        text_order(b.0, c.0, a.0);
        text_order(c.0, b.0, a.0);
        text_order(a.0, c.0, b.0);
    }
}

/// Which cached work is stale. Its stages are in order and none stands there twice.
#[derive(Clone, Debug, PartialEq, Eq)]
pub struct InvalidationPlan {
    /// Invalidates the stage for every scene and for non-scene artifacts.
    pub global_stages: Vec<CacheStage>,
    /// Invalidates only keyed scene segments. Aggregate renders are added globally.
    pub scene_stages: Vec<SceneStage>,
}

/// What an [`InvalidationPlan`] holds, as mathematical values.
#[verifier::ext_equal]
pub struct PlanModel {
    pub everywhere: Set<CacheStage>,
    pub in_scenes: Set<(Seq<char>, CacheStage)>,
}

impl DeepView for SceneStage {
    type V = (Seq<char>, CacheStage);

    open spec fn deep_view(&self) -> (Seq<char>, CacheStage) {
        (self.scene_id@, self.stage)
    }
}

impl DeepView for InvalidationPlan {
    type V = PlanModel;

    open spec fn deep_view(&self) -> PlanModel {
        PlanModel {
            everywhere: self.global_stages.deep_view().to_set(),
            in_scenes: self.scene_stages.deep_view().to_set(),
        }
    }
}

impl PlanModel {
    /// Whether a stage is stale, for a scene or for none.
    pub open spec fn stale(self, stage: CacheStage, scene_id: Option<Seq<char>>) -> bool {
        self.everywhere.contains(stage) || (scene_id is Some && self.in_scenes.contains((scene_id->0, stage)))
    }
}

/// Some stages of one scene.
pub open spec fn scene_pairs(scene_id: Seq<char>, stages: Seq<CacheStage>) -> Set<(Seq<char>, CacheStage)> {
    Set::new(|pair: (Seq<char>, CacheStage)| pair.0 == scene_id && stages.contains(pair.1))
}

/// The plan with the effect of one more change.
pub open spec fn extended(plan: PlanModel, effect: Effect) -> PlanModel {
    PlanModel {
        everywhere: plan.everywhere.union(effect.everywhere.to_set()),
        in_scenes: match effect.scene_id {
            Some(id) => plan.in_scenes.union(scene_pairs(id, effect.in_scene)),
            None => plan.in_scenes,
        },
    }
}

pub open spec fn nothing_stale() -> PlanModel {
    PlanModel { everywhere: Set::empty(), in_scenes: Set::empty() }
}

/// The plan for the first changes.
pub open spec fn plan_after(changes: Seq<ManifestChange>, count: int) -> PlanModel
    decreases count,
{
    if count <= 0 {
        nothing_stale()
    } else {
        extended(plan_after(changes, count - 1), effect_of(changes[count - 1]))
    }
}

pub open spec fn change_fault(change: ManifestChange) -> Option<Fault> {
    match effect_of(change).scene_id {
        Some(id) => identifier_fault(id, "manifest_change.scene_id"@),
        None => None,
    }
}

pub open spec fn changes_fault_from(changes: Seq<ManifestChange>, index: int) -> Option<Fault>
    decreases changes.len() - index,
{
    if index < 0 || index >= changes.len() {
        None
    } else {
        or_else(change_fault(changes[index]), changes_fault_from(changes, index + 1))
    }
}

impl InvalidationPlan {
    /// Whether the stages are in order and none stands there twice.
    pub open spec fn well_formed(self) -> bool {
        is_ordered_set::<CacheStage>(self.global_stages.deep_view()) && is_ordered_set::<SceneStage>(
            self.scene_stages.deep_view(),
        )
    }

    fn add_global(&mut self, stages: &[CacheStage])
        ensures
            final(self).deep_view() == (PlanModel {
                everywhere: old(self).deep_view().everywhere.union(stages@.to_set()),
                ..old(self).deep_view()
            }),
            old(self).well_formed() ==> final(self).well_formed(),
    {
        let ghost before = self.deep_view();
        let ghost ordered = self.well_formed();
        let mut index: usize = 0;
        assert(before.everywhere.union(stages@.take(0).to_set()) =~= before.everywhere);
        while index < stages.len()
            invariant
                index <= stages.len(),
                ordered ==> self.well_formed(),
                self.deep_view().in_scenes == before.in_scenes,
                self.deep_view().everywhere == before.everywhere.union(stages@.take(index as int).to_set()),
            decreases stages.len() - index,
        {
            let stage: CacheStage = stages[index];
            self.global_stages = with_item(&self.global_stages, stage);
            proof {
                assert(stages@.take(index + 1) =~= stages@.take(index as int).push(stage));
                stages@.take(index as int).lemma_push_to_set_commute(stage);
                assert(self.deep_view().everywhere =~= before.everywhere.union(
                    stages@.take(index + 1).to_set(),
                ));
            }
            index += 1;
        }
        assert(stages@.take(stages@.len() as int) =~= stages@);
    }

    fn add_scene(&mut self, scene_id: &str, stages: &[CacheStage]) -> (result: VideoResult<()>)
        ensures
            refusal(result) == identifier_fault(scene_id@, "manifest_change.scene_id"@),
            result is Ok ==> final(self).deep_view() == (PlanModel {
                in_scenes: old(self).deep_view().in_scenes.union(
                    scene_pairs(scene_id@, stages@),
                ),
                ..old(self).deep_view()
            }),
            result is Err ==> *final(self) == *old(self),
            old(self).well_formed() ==> final(self).well_formed(),
    {
        validate_identifier(scene_id, "manifest_change.scene_id")?;
        let ghost before = self.deep_view();
        let ghost ordered = self.well_formed();
        let mut index: usize = 0;
        assert(scene_pairs(scene_id@, stages@.take(0)) =~= Set::empty());
        assert(before.in_scenes.union(Set::empty()) =~= before.in_scenes);
        while index < stages.len()
            invariant
                index <= stages.len(),
                identifier_fault(scene_id@, "manifest_change.scene_id"@) is None,
                ordered ==> self.well_formed(),
                self.deep_view().everywhere == before.everywhere,
                self.deep_view().in_scenes == before.in_scenes.union(
                    scene_pairs(scene_id@, stages@.take(index as int)),
                ),
            decreases stages.len() - index,
        {
            let stage: CacheStage = stages[index];
            self.scene_stages = with_item(
                &self.scene_stages,
                SceneStage { scene_id: scene_id.to_owned(), stage },
            );
            proof {
                let less = stages@.take(index as int);
                let more = stages@.take(index + 1);
                assert(more =~= less.push(stage));
                assert forall|other: CacheStage| more.contains(other) <==> less.contains(other) || other == stage by {
                    if less.contains(other) {
                        let i = choose|i: int| 0 <= i < less.len() && less[i] == other;
                        assert(more[i] == other);
                    }
                    assert(more[index as int] == stage);
                }
                assert(self.deep_view().in_scenes =~= before.in_scenes.union(scene_pairs(scene_id@, more)));
            }
            index += 1;
        }
        assert(stages@.take(stages@.len() as int) =~= stages@);
        Ok(())
    }

    fn add_aggregate_renders(&mut self)
        ensures
            final(self).deep_view() == (PlanModel {
                everywhere: old(self).deep_view().everywhere.union(aggregate_renders().to_set()),
                ..old(self).deep_view()
            }),
            old(self).well_formed() ==> final(self).well_formed(),
    {
        let stages: [CacheStage; 3] = [
            CacheStage::PreviewRender,
            CacheStage::FinalRender,
            CacheStage::PublishPackage,
        ];
        assert(stages@ =~= aggregate_renders());
        self.add_global(&stages);
    }

    fn add_everywhere(&mut self, stages: &[CacheStage])
        ensures
            final(self).deep_view() == extended(
                old(self).deep_view(),
                effect_everywhere(stages@ + aggregate_renders()),
            ),
            old(self).well_formed() ==> final(self).well_formed(),
    {
        let ghost before = self.deep_view();
        self.add_global(stages);
        self.add_aggregate_renders();
        proof {
            let all = stages@ + aggregate_renders();
            assert forall|stage: CacheStage| #[trigger] all.to_set().contains(stage) <==> stages@.to_set().union(
                aggregate_renders().to_set(),
            ).contains(stage) by {
                if stages@.contains(stage) {
                    let i = choose|i: int| 0 <= i < stages@.len() && stages@[i] == stage;
                    assert(all[i] == stage);
                }
                if aggregate_renders().contains(stage) {
                    let i = choose|i: int| 0 <= i < aggregate_renders().len() && aggregate_renders()[i] == stage;
                    assert(all[stages@.len() + i] == stage);
                }
            }
            assert(self.deep_view().everywhere =~= before.everywhere.union(all.to_set()));
        }
    }

    fn add_in_scene(&mut self, scene_id: &str, stages: &[CacheStage]) -> (result: VideoResult<()>)
        ensures
            refusal(result) == identifier_fault(scene_id@, "manifest_change.scene_id"@),
            result is Ok ==> final(self).deep_view() == extended(
                old(self).deep_view(),
                effect_in_scene(scene_id@, stages@),
            ),
            result is Err ==> *final(self) == *old(self),
            old(self).well_formed() ==> final(self).well_formed(),
    {
        self.add_scene(scene_id, stages)?;
        self.add_aggregate_renders();
        Ok(())
    }

    fn add_in_some_scene(&mut self, scene_id: &Option<String>, stages: &[CacheStage]) -> (result: VideoResult<()>)
        ensures
            refusal(result) == match effect_in_some_scene(*scene_id, stages@).scene_id {
                Some(id) => identifier_fault(id, "manifest_change.scene_id"@),
                None => None,
            },
            result is Ok ==> final(self).deep_view() == extended(
                old(self).deep_view(),
                effect_in_some_scene(*scene_id, stages@),
            ),
            result is Err ==> *final(self) == *old(self),
            old(self).well_formed() ==> final(self).well_formed(),
    {
        match scene_id {
            Some(id) => self.add_in_scene(id.as_str(), stages),
            None => {
                self.add_everywhere(stages);
                Ok(())
            },
        }
    }

    /// Adds what a change makes stale. A change that is refused leaves the plan as it was.
    pub fn apply(&mut self, change: &ManifestChange) -> (result: VideoResult<()>)
        ensures
            refusal(result) == change_fault(*change),
            result is Ok ==> final(self).deep_view() == extended(old(self).deep_view(), effect_of(*change)),
            result is Err ==> *final(self) == *old(self),
            result is Err ==> final(self).deep_view() == old(self).deep_view(),
            old(self).well_formed() ==> final(self).well_formed(),
    {
        match change {
            ManifestChange::Source => {
                let stages: [CacheStage; 11] = [
                    CacheStage::Probe,
                    CacheStage::Proxy,
                    CacheStage::Thumbnail,
                    CacheStage::Waveform,
                    CacheStage::Transcription,
                    CacheStage::SceneAnalysis,
                    CacheStage::Plan,
                    CacheStage::Tracking,
                    CacheStage::Captions,
                    CacheStage::AudioMix,
                    CacheStage::SceneRender,
                ];
                assert(stages@ + aggregate_renders() =~= effect_of(*change).everywhere);
                self.add_everywhere(&stages);
                Ok(())
            },
            ManifestChange::Transcript => {
                let stages: [CacheStage; 4] = [
                    CacheStage::SceneAnalysis,
                    CacheStage::Plan,
                    CacheStage::Captions,
                    CacheStage::SceneRender,
                ];
                assert(stages@ + aggregate_renders() =~= effect_of(*change).everywhere);
                self.add_everywhere(&stages);
                Ok(())
            },
            ManifestChange::ClipSelection => {
                let stages: [CacheStage; 5] = [
                    CacheStage::Plan,
                    CacheStage::Tracking,
                    CacheStage::Captions,
                    CacheStage::AudioMix,
                    CacheStage::SceneRender,
                ];
                assert(stages@ + aggregate_renders() =~= effect_of(*change).everywhere);
                self.add_everywhere(&stages);
                Ok(())
            },
            ManifestChange::ScenePlan => {
                let stages: [CacheStage; 8] = [
                    CacheStage::Plan,
                    CacheStage::Speech,
                    CacheStage::Music,
                    CacheStage::Image,
                    CacheStage::Tracking,
                    CacheStage::Captions,
                    CacheStage::AudioMix,
                    CacheStage::SceneRender,
                ];
                assert(stages@ + aggregate_renders() =~= effect_of(*change).everywhere);
                self.add_everywhere(&stages);
                Ok(())
            },
            ManifestChange::SceneScript { scene_id } => {
                let stages: [CacheStage; 3] = [
                    CacheStage::Speech,
                    CacheStage::Captions,
                    CacheStage::SceneRender,
                ];
                assert(stages@ =~= effect_of(*change).in_scene);
                self.add_in_scene(scene_id.as_str(), &stages)
            },
            ManifestChange::Voice { scene_id } => {
                let stages: [CacheStage; 3] = [
                    CacheStage::Speech,
                    CacheStage::AudioMix,
                    CacheStage::SceneRender,
                ];
                assert(stages@ =~= effect_of(*change).in_scene);
                self.add_in_scene(scene_id.as_str(), &stages)
            },
            ManifestChange::Music { scene_id } => {
                let stages: [CacheStage; 3] = [
                    CacheStage::Music,
                    CacheStage::AudioMix,
                    CacheStage::SceneRender,
                ];
                assert(stages@ =~= seq![CacheStage::Music, CacheStage::AudioMix, CacheStage::SceneRender]);
                self.add_in_some_scene(scene_id, &stages)
            },
            ManifestChange::CaptionContent { scene_id } => {
                let stages: [CacheStage; 2] = [CacheStage::Captions, CacheStage::SceneRender];
                assert(stages@ =~= seq![CacheStage::Captions, CacheStage::SceneRender]);
                self.add_in_some_scene(scene_id, &stages)
            },
            ManifestChange::CaptionStyle => {
                let stages: [CacheStage; 2] = [CacheStage::Captions, CacheStage::SceneRender];
                assert(stages@ + aggregate_renders() =~= effect_of(*change).everywhere);
                self.add_everywhere(&stages);
                Ok(())
            },
            ManifestChange::Layout { scene_id } => {
                let stages: [CacheStage; 2] = [CacheStage::Tracking, CacheStage::SceneRender];
                assert(stages@ =~= seq![CacheStage::Tracking, CacheStage::SceneRender]);
                self.add_in_some_scene(scene_id, &stages)
            },
            ManifestChange::AudioMix { scene_id } => {
                let stages: [CacheStage; 2] = [CacheStage::AudioMix, CacheStage::SceneRender];
                assert(stages@ =~= seq![CacheStage::AudioMix, CacheStage::SceneRender]);
                self.add_in_some_scene(scene_id, &stages)
            },
            ManifestChange::Tracking { scene_id } => {
                let stages: [CacheStage; 2] = [CacheStage::Tracking, CacheStage::SceneRender];
                assert(stages@ =~= seq![CacheStage::Tracking, CacheStage::SceneRender]);
                self.add_in_some_scene(scene_id, &stages)
            },
            ManifestChange::RenderProfile => {
                let stages: [CacheStage; 1] = [CacheStage::SceneRender];
                assert(stages@ + aggregate_renders() =~= effect_of(*change).everywhere);
                self.add_everywhere(&stages);
                Ok(())
            },
            ManifestChange::ProvenanceOnly => {
                let stages: [CacheStage; 1] = [CacheStage::PublishPackage];
                assert(stages@ =~= seq![CacheStage::PublishPackage]);
                self.add_global(&stages);
                Ok(())
            },
        }
    }

    /// What some changes make stale together.
    pub fn for_changes(changes: &Vec<ManifestChange>) -> (result: VideoResult<Self>)
        ensures
            refusal(result) == changes_fault_from(changes@, 0),
            result matches Ok(plan) ==> plan.deep_view() == plan_after(changes@, changes@.len() as int)
                && plan.well_formed(),
    {
        let mut plan = InvalidationPlan { global_stages: Vec::new(), scene_stages: Vec::new() };
        assert(plan.deep_view().everywhere =~= Set::empty());
        assert(plan.deep_view().in_scenes =~= Set::empty());
        let mut index: usize = 0;
        while index < changes.len()
            invariant
                index <= changes.len(),
                plan.well_formed(),
                plan.deep_view() == plan_after(changes@, index as int),
                changes_fault_from(changes@, 0) == changes_fault_from(changes@, index as int),
            decreases changes.len() - index,
        {
            plan.apply(&changes[index])?;
            index += 1;
        }
        Ok(plan)
    }

    /// Whether a stage is stale, for a scene or for none.
    pub fn invalidates(&self, stage: CacheStage, scene_id: Option<&str>) -> (result: bool)
        ensures
            result == self.deep_view().stale(stage, scene_id.deep_view()),
    {
        let ghost global = self.global_stages.deep_view();
        let mut index: usize = 0;
        while index < self.global_stages.len()
            invariant
                index <= self.global_stages.len(),
                global == self.global_stages.deep_view(),
                forall|i: int| 0 <= i < index ==> global[i] != stage,
            decreases self.global_stages.len() - index,
        {
            assert(global[index as int] == self.global_stages[index as int]);
            if self.global_stages[index] == stage {
                assert(global[index as int] == stage);
                return true;
            }
            index += 1;
        }
        assert(!global.contains(stage));
        match scene_id {
            Some(id) => {
                let ghost pairs = self.scene_stages.deep_view();
                let mut place: usize = 0;
                while place < self.scene_stages.len()
                    invariant
                        place <= self.scene_stages.len(),
                        pairs == self.scene_stages.deep_view(),
                        scene_id.deep_view() == Some(id@),
                        !self.global_stages.deep_view().contains(stage),
                        forall|i: int| 0 <= i < place ==> pairs[i] != (id@, stage),
                    decreases self.scene_stages.len() - place,
                {
                    assert(pairs[place as int] == self.scene_stages[place as int].deep_view());
                    if self.scene_stages[place].stage == stage && text_eq(
                        self.scene_stages[place].scene_id.as_str(),
                        id,
                    ) {
                        assert(pairs.contains((id@, stage)));
                        return true;
                    }
                    place += 1;
                }
                assert(!pairs.contains((id@, stage)));
                false
            },
            None => false,
        }
    }

    /// Whether nothing is stale.
    pub fn is_empty(&self) -> (result: bool)
        ensures
            result == (self.deep_view() == nothing_stale()),
    {
        let ghost global = self.global_stages.deep_view();
        let ghost pairs = self.scene_stages.deep_view();
        proof {
            if global.len() > 0 {
                assert(global.to_set().contains(global[0]));
            } else {
                assert(global.to_set() =~= Set::empty());
            }
            if pairs.len() > 0 {
                assert(pairs.to_set().contains(pairs[0]));
            } else {
                assert(pairs.to_set() =~= Set::empty());
            }
        }
        self.global_stages.len() == 0 && self.scene_stages.len() == 0
    }
}

/// Two plans that make the same work stale are the same plan, whatever the order of the changes was.
pub proof fn equal_plans_are_one(left: InvalidationPlan, right: InvalidationPlan)
    requires
        left.well_formed(),
        right.well_formed(),
        left.deep_view() == right.deep_view(),
    ensures
        left.global_stages.deep_view() == right.global_stages.deep_view(),
        left.scene_stages.deep_view() == right.scene_stages.deep_view(),
{
    assert forall|x: (Seq<char>, CacheStage), y: (Seq<char>, CacheStage)| !#[trigger] SceneStage::before(x, y)
        && !SceneStage::before(y, x) implies x == y by {
        text_order(x.0, y.0, x.0);
    }
    an_ordered_set_has_one_form::<CacheStage>(left.global_stages.deep_view(), right.global_stages.deep_view());
    an_ordered_set_has_one_form::<SceneStage>(left.scene_stages.deep_view(), right.scene_stages.deep_view());
}

/// A change in one scene leaves every other scene's own work alone: of another scene only the renders
/// put together from all scenes are stale.
pub proof fn a_scene_change_stays_in_its_scene(change: ManifestChange, stage: CacheStage, other: Seq<char>)
    requires
        effect_of(change).scene_id is Some,
        effect_of(change).scene_id != Some(other),
        plan_after(seq![change], 1).stale(stage, Some(other)),
    ensures
        aggregate_renders().contains(stage),
{
    reveal_with_fuel(plan_after, 2);
}

/// What one change makes stale stays stale whatever else changes.
pub proof fn more_changes_make_more_stale(
    changes: Seq<ManifestChange>,
    few: int,
    many: int,
    stage: CacheStage,
    scene_id: Option<Seq<char>>,
)
    requires
        0 <= few <= many,
        plan_after(changes, few).stale(stage, scene_id),
    ensures
        plan_after(changes, many).stale(stage, scene_id),
    decreases many - few,
{
    if few < many {
        more_changes_make_more_stale(changes, few, many - 1, stage, scene_id);
    }
}

/// Whatever changes, the package to publish is stale.
pub proof fn every_change_reaches_the_package(changes: Seq<ManifestChange>, count: int)
    requires
        0 < count,
    ensures
        plan_after(changes, count).stale(CacheStage::PublishPackage, None),
{
    let effect = effect_of(changes[count - 1]);
    let renders = aggregate_renders();
    assert(renders[2] == CacheStage::PublishPackage);
    let at = effect.everywhere.len() - 1;
    assert(effect.everywhere[at] == CacheStage::PublishPackage);
}

/// Whether work of one stage is made out of work of another. Publishing is made out of the renders, a render
/// of the whole out of the renders of the scenes, and those out of all that is heard and seen in a scene.
pub open spec fn is_made_from(stage: CacheStage, input: CacheStage) -> bool {
    match stage {
        CacheStage::SceneAnalysis => input == CacheStage::Transcription,
        CacheStage::Plan => input == CacheStage::SceneAnalysis,
        CacheStage::Captions => input == CacheStage::Plan,
        CacheStage::AudioMix => input == CacheStage::Music,
        CacheStage::SceneRender => {
            ||| input == CacheStage::Speech
            ||| input == CacheStage::Image
            ||| input == CacheStage::Tracking
            ||| input == CacheStage::Captions
            ||| input == CacheStage::AudioMix
        },
        CacheStage::PreviewRender | CacheStage::FinalRender => input == CacheStage::SceneRender,
        CacheStage::PublishPackage => input == CacheStage::PreviewRender || input == CacheStage::FinalRender,
        _ => false,
    }
}

/// The work that a change touches of itself.
pub open spec fn touches(change: ManifestChange, stage: CacheStage) -> bool {
    match change {
        ManifestChange::Source => {
            ||| stage == CacheStage::Probe
            ||| stage == CacheStage::Proxy
            ||| stage == CacheStage::Thumbnail
            ||| stage == CacheStage::Waveform
            ||| stage == CacheStage::Transcription
            ||| stage == CacheStage::Tracking
            ||| stage == CacheStage::AudioMix
        },
        ManifestChange::Transcript => stage == CacheStage::SceneAnalysis,
        ManifestChange::ClipSelection => stage == CacheStage::Plan || stage == CacheStage::Tracking || stage
            == CacheStage::AudioMix,
        ManifestChange::ScenePlan => {
            ||| stage == CacheStage::Plan
            ||| stage == CacheStage::Speech
            ||| stage == CacheStage::Music
            ||| stage == CacheStage::Image
            ||| stage == CacheStage::Tracking
        },
        ManifestChange::SceneScript { scene_id } => stage == CacheStage::Speech || stage == CacheStage::Captions,
        ManifestChange::Voice { scene_id } => stage == CacheStage::Speech || stage == CacheStage::AudioMix,
        ManifestChange::Music { scene_id } => stage == CacheStage::Music,
        ManifestChange::CaptionContent { scene_id } => stage == CacheStage::Captions,
        ManifestChange::CaptionStyle => stage == CacheStage::Captions,
        ManifestChange::Layout { scene_id } => stage == CacheStage::Tracking,
        ManifestChange::AudioMix { scene_id } => stage == CacheStage::AudioMix,
        ManifestChange::Tracking { scene_id } => stage == CacheStage::Tracking,
        ManifestChange::RenderProfile => stage == CacheStage::SceneRender,
        ManifestChange::ProvenanceOnly => stage == CacheStage::PublishPackage,
    }
}

/// The scene that a change is made in, if it is made in one.
pub open spec fn scene_of_change(change: ManifestChange) -> Option<Seq<char>> {
    match change {
        ManifestChange::SceneScript { scene_id } => Some(scene_id@),
        ManifestChange::Voice { scene_id } => Some(scene_id@),
        ManifestChange::Music { scene_id } => scene_id.deep_view(),
        ManifestChange::CaptionContent { scene_id } => scene_id.deep_view(),
        ManifestChange::Layout { scene_id } => scene_id.deep_view(),
        ManifestChange::AudioMix { scene_id } => scene_id.deep_view(),
        ManifestChange::Tracking { scene_id } => scene_id.deep_view(),
        _ => None,
    }
}

/// Whatever makes work stale makes stale what is made out of it, in the same places: stale captions, tracking,
/// sound or pictures of a scene, or of all, mean stale renders of that scene, or of all, and stale renders mean
/// a stale package.
pub proof fn what_is_made_from_stale_work_is_stale(
    changes: Seq<ManifestChange>,
    count: int,
    stage: CacheStage,
    input: CacheStage,
    scene_id: Option<Seq<char>>,
)
    requires
        0 <= count,
        is_made_from(stage, input),
        plan_after(changes, count).stale(input, scene_id),
    ensures
        plan_after(changes, count).stale(stage, scene_id),
    decreases count,
{
    if count > 0 {
        let before = plan_after(changes, count - 1);
        if before.stale(input, scene_id) {
            what_is_made_from_stale_work_is_stale(changes, count - 1, stage, input, scene_id);
        } else {
            lemma_effect(changes[count - 1], stage);
            lemma_effect(changes[count - 1], input);
        }
    }
}

/// Work that a change touches where it is made is stale there. In that place nothing is stale but that and what
/// is made out of stale work.
pub proof fn only_touched_work_goes_stale(change: ManifestChange, stage: CacheStage, scene_id: Option<Seq<char>>)
    requires
        scene_of_change(change) is None || scene_of_change(change) == scene_id,
    ensures
        plan_after(seq![change], 1).stale(stage, scene_id) <==> touches(change, stage) || exists|input: CacheStage|
            #![trigger is_made_from(stage, input)]
            is_made_from(stage, input) && plan_after(seq![change], 1).stale(input, scene_id),
{
    reveal_with_fuel(plan_after, 2);
    let plan = plan_after(seq![change], 1);
    assert(seq![change][0] == change);
    assert forall|other: CacheStage| #[trigger] plan.stale(other, scene_id) <==> effect_of(change).everywhere.contains(
        other,
    ) || effect_of(change).in_scene.contains(other) by {
        lemma_effect(change, other);
    }
    assert forall|other: CacheStage| true implies stale_in_place(change, other) == #[trigger] plan.stale(other, scene_id) by {
        lemma_effect(change, other);
    }
    if plan.stale(stage, scene_id) && !touches(change, stage) {
        let input = match stage {
            CacheStage::SceneAnalysis => CacheStage::Transcription,
            CacheStage::Plan => CacheStage::SceneAnalysis,
            CacheStage::Captions => CacheStage::Plan,
            CacheStage::AudioMix => CacheStage::Music,
            CacheStage::SceneRender => if stale_in_place(change, CacheStage::Speech) {
                CacheStage::Speech
            } else if stale_in_place(change, CacheStage::Tracking) {
                CacheStage::Tracking
            } else if stale_in_place(change, CacheStage::AudioMix) {
                CacheStage::AudioMix
            } else {
                CacheStage::Captions
            },
            CacheStage::PublishPackage => CacheStage::FinalRender,
            _ => CacheStage::SceneRender,
        };
        assert(is_made_from(stage, input) && plan.stale(input, scene_id));
    }
    if touches(change, stage) {
        assert(plan.stale(stage, scene_id));
    }
}

/// A change in one scene makes, of every other scene and of what belongs to none, the renders of the whole stale
/// and nothing else.
pub proof fn other_scenes_only_render_again(change: ManifestChange, stage: CacheStage, scene_id: Option<Seq<char>>)
    requires
        scene_of_change(change) is Some,
        scene_of_change(change) != scene_id,
    ensures
        plan_after(seq![change], 1).stale(stage, scene_id) <==> stage == CacheStage::PreviewRender || stage
            == CacheStage::FinalRender || stage == CacheStage::PublishPackage,
{
    reveal_with_fuel(plan_after, 2);
    lemma_effect(change, stage);
    assert(seq![change][0] == change);
}

/// What some changes make stale together is what each makes stale of itself.
pub proof fn changes_add_up(changes: Seq<ManifestChange>, count: int, stage: CacheStage, scene_id: Option<Seq<char>>)
    requires
        0 <= count <= changes.len(),
    ensures
        plan_after(changes, count).stale(stage, scene_id) <==> exists|i: int|
            0 <= i < count && #[trigger] plan_after(seq![changes[i]], 1).stale(stage, scene_id),
    decreases count,
{
    if count > 0 {
        changes_add_up(changes, count - 1, stage, scene_id);
        let last = seq![changes[count - 1]];
        reveal_with_fuel(plan_after, 2);
        assert(last[0] == changes[count - 1]);
        assert(plan_after(last, 1) == extended(nothing_stale(), effect_of(changes[count - 1])));
        if plan_after(last, 1).stale(stage, scene_id) {
            assert(plan_after(seq![changes[count - 1]], 1).stale(stage, scene_id));
        }
    }
}

/// Whether a stage is stale where a change is made.
spec fn stale_in_place(change: ManifestChange, stage: CacheStage) -> bool {
    ||| touches(change, stage)
    ||| match stage {
        CacheStage::PreviewRender | CacheStage::FinalRender | CacheStage::SceneRender => !(change
            is ProvenanceOnly),
        CacheStage::PublishPackage => true,
        CacheStage::SceneAnalysis => change is Source,
        CacheStage::Plan => change is Source || change is Transcript,
        CacheStage::Captions => change is Source || change is Transcript || change is ClipSelection || change
            is ScenePlan,
        CacheStage::AudioMix => change is ScenePlan || change is Music,
        _ => false,
    }
}

/// The stages that a change makes stale, everywhere and in its scene.
proof fn lemma_effect(change: ManifestChange, stage: CacheStage)
    ensures
        effect_of(change).scene_id == scene_of_change(change),
        scene_of_change(change) is None ==> (effect_of(change).everywhere.contains(stage) <==> stale_in_place(
            change,
            stage,
        )),
        scene_of_change(change) is Some ==> {
            &&& effect_of(change).everywhere.contains(stage) <==> stage == CacheStage::PreviewRender || stage
                == CacheStage::FinalRender || stage == CacheStage::PublishPackage
            &&& effect_of(change).everywhere.contains(stage) || effect_of(change).in_scene.contains(stage)
                <==> stale_in_place(change, stage)
        },
        scene_of_change(change) is None ==> !effect_of(change).in_scene.contains(stage),
{
    broadcast use {vstd::seq_lib::lemma_seq_contains_after_push, vstd::seq_lib::lemma_seq_empty_contains_nothing,
        vstd::seq_lib::lemma_seq_concat_contains_all_elements};
    assert(aggregate_renders().contains(stage) <==> stage == CacheStage::PreviewRender || stage
        == CacheStage::FinalRender || stage == CacheStage::PublishPackage);
}

/// Whatever goes into a key shows in it: two inputs that agree but for their scene, their version, their stage, their
/// slice of the manifest or their profile, and are not written alike there, are not hashed from the same bytes.
pub proof fn what_is_addressed_shows(left: CacheKeyInput, right: CacheKeyInput)
    requires
        left.input_artifacts == right.input_artifacts,
        left.tool_versions == right.tool_versions,
    ensures
        ({
            let same_stage = json_quoted(left.stage.name()) == json_quoted(right.stage.name());
            let same_version = json_quoted(left.stage_version@) == json_quoted(right.stage_version@);
            let same_scene = optional_quoted(left.scene_id.deep_view()) == optional_quoted(right.scene_id.deep_view());
            let same_slice = canonical_text(left.manifest_slice) == canonical_text(right.manifest_slice);
            let same_profile = canonical_text(left.profile) == canonical_text(right.profile);
            &&& !same_stage && same_version && same_scene && same_slice && same_profile ==> input_text(left)
                != input_text(right)
            &&& same_stage && !same_version && same_scene && same_slice && same_profile ==> input_text(left)
                != input_text(right)
            &&& same_stage && same_version && !same_scene && same_slice && same_profile ==> input_text(left)
                != input_text(right)
            &&& same_stage && same_version && same_scene && !same_slice && same_profile ==> input_text(left)
                != input_text(right)
            &&& same_stage && same_version && same_scene && same_slice && !same_profile ==> input_text(left)
                != input_text(right)
            &&& input_text(left) != input_text(right) ==> key_bytes(left) != key_bytes(right)
        }),
{
    lemma_input_parts(left);
    lemma_input_parts(right);
    lemma_parts_show(
        "{\"stage\":"@,
        ",\"stage_version\":"@,
        ",\"scene_id\":"@,
        between_scene_and_slice(left),
        ",\"profile\":"@,
        "}"@,
        input_parts(left),
        input_parts(right),
    );
    lemma_content_shows(left, right);
}

/// What is written of an input's stage, version, scene, slice and profile.
spec fn input_parts(input: CacheKeyInput) -> (Seq<char>, Seq<char>, Seq<char>, Seq<char>, Seq<char>) {
    (
        json_quoted(input.stage.name()),
        json_quoted(input.stage_version@),
        optional_quoted(input.scene_id.deep_view()),
        canonical_text(input.manifest_slice),
        canonical_text(input.profile),
    )
}

/// What is written between an input's scene and its slice.
spec fn between_scene_and_slice(input: CacheKeyInput) -> Seq<char> {
    ",\"input_artifacts\":["@ + listed_from(
        artifact_texts(ranked::<CacheArtifactInput>(input.input_artifacts.deep_view())),
        0,
    ) + "],\"tool_versions\":"@ + object_text(tool_entries(input.tool_versions.deep_view()))
        + ",\"manifest_slice\":"@
}

spec fn written(
    a: Seq<char>,
    b: Seq<char>,
    c: Seq<char>,
    d: Seq<char>,
    e: Seq<char>,
    f: Seq<char>,
    parts: (Seq<char>, Seq<char>, Seq<char>, Seq<char>, Seq<char>),
) -> Seq<char> {
    a + parts.0 + b + parts.1 + c + parts.2 + d + parts.3 + e + parts.4 + f
}

proof fn lemma_input_parts(input: CacheKeyInput)
    ensures
        input_text(input) == written(
            "{\"stage\":"@,
            ",\"stage_version\":"@,
            ",\"scene_id\":"@,
            between_scene_and_slice(input),
            ",\"profile\":"@,
            "}"@,
            input_parts(input),
        ),
{
    let lead = "{\"stage\":"@ + json_quoted(input.stage.name()) + ",\"stage_version\":"@ + json_quoted(
        input.stage_version@,
    ) + ",\"scene_id\":"@ + optional_quoted(input.scene_id.deep_view());
    let u = ",\"input_artifacts\":["@;
    let v = listed_from(artifact_texts(ranked::<CacheArtifactInput>(input.input_artifacts.deep_view())), 0);
    let w = "],\"tool_versions\":"@;
    let x = object_text(tool_entries(input.tool_versions.deep_view()));
    let y = ",\"manifest_slice\":"@;
    lemma_five(lead, u, v, w, x, y);
}

proof fn lemma_five(lead: Seq<char>, u: Seq<char>, v: Seq<char>, w: Seq<char>, x: Seq<char>, y: Seq<char>)
    ensures
        lead + u + v + w + x + y == lead + (u + v + w + x + y),
{
    assert(lead + u + v + w + x + y =~= lead + (u + v + w + x + y));
}

proof fn lemma_parts_show(
    a: Seq<char>,
    b: Seq<char>,
    c: Seq<char>,
    d: Seq<char>,
    e: Seq<char>,
    f: Seq<char>,
    one: (Seq<char>, Seq<char>, Seq<char>, Seq<char>, Seq<char>),
    other: (Seq<char>, Seq<char>, Seq<char>, Seq<char>, Seq<char>),
)
    ensures
        one.0 != other.0 && one.1 == other.1 && one.2 == other.2 && one.3 == other.3 && one.4 == other.4 ==> written(
            a,
            b,
            c,
            d,
            e,
            f,
            one,
        ) != written(a, b, c, d, e, f, other),
        one.0 == other.0 && one.1 != other.1 && one.2 == other.2 && one.3 == other.3 && one.4 == other.4 ==> written(
            a,
            b,
            c,
            d,
            e,
            f,
            one,
        ) != written(a, b, c, d, e, f, other),
        one.0 == other.0 && one.1 == other.1 && one.2 != other.2 && one.3 == other.3 && one.4 == other.4 ==> written(
            a,
            b,
            c,
            d,
            e,
            f,
            one,
        ) != written(a, b, c, d, e, f, other),
        one.0 == other.0 && one.1 == other.1 && one.2 == other.2 && one.3 != other.3 && one.4 == other.4 ==> written(
            a,
            b,
            c,
            d,
            e,
            f,
            one,
        ) != written(a, b, c, d, e, f, other),
        one.0 == other.0 && one.1 == other.1 && one.2 == other.2 && one.3 == other.3 && one.4 != other.4 ==> written(
            a,
            b,
            c,
            d,
            e,
            f,
            one,
        ) != written(a, b, c, d, e, f, other),
{
    lemma_written_apart(a, b, c, d, e, f, one);
    lemma_written_apart(a, b, c, d, e, f, other);
    lemma_middle_shows(a, one.0, other.0, b + one.1 + c + one.2 + d + one.3 + e + one.4 + f);
    lemma_middle_shows(a + one.0 + b, one.1, other.1, c + one.2 + d + one.3 + e + one.4 + f);
    lemma_middle_shows(a + one.0 + b + one.1 + c, one.2, other.2, d + one.3 + e + one.4 + f);
    lemma_middle_shows(a + one.0 + b + one.1 + c + one.2 + d, one.3, other.3, e + one.4 + f);
    lemma_middle_shows(a + one.0 + b + one.1 + c + one.2 + d + one.3 + e, one.4, other.4, f);
}

/// A concatenation, split before and behind each of its parts.
proof fn lemma_written_apart(
    a: Seq<char>,
    b: Seq<char>,
    c: Seq<char>,
    d: Seq<char>,
    e: Seq<char>,
    f: Seq<char>,
    parts: (Seq<char>, Seq<char>, Seq<char>, Seq<char>, Seq<char>),
)
    ensures
        ({
            let whole = a + parts.0 + b + parts.1 + c + parts.2 + d + parts.3 + e + parts.4 + f;
            &&& whole == a + parts.0 + (b + parts.1 + c + parts.2 + d + parts.3 + e + parts.4 + f)
            &&& whole == (a + parts.0 + b) + parts.1 + (c + parts.2 + d + parts.3 + e + parts.4 + f)
            &&& whole == (a + parts.0 + b + parts.1 + c) + parts.2 + (d + parts.3 + e + parts.4 + f)
            &&& whole == (a + parts.0 + b + parts.1 + c + parts.2 + d) + parts.3 + (e + parts.4 + f)
            &&& whole == (a + parts.0 + b + parts.1 + c + parts.2 + d + parts.3 + e) + parts.4 + f
        }),
{
    let whole = a + parts.0 + b + parts.1 + c + parts.2 + d + parts.3 + e + parts.4 + f;
    assert(whole =~= a + parts.0 + (b + parts.1 + c + parts.2 + d + parts.3 + e + parts.4 + f));
    assert(whole =~= (a + parts.0 + b) + parts.1 + (c + parts.2 + d + parts.3 + e + parts.4 + f));
    assert(whole =~= (a + parts.0 + b + parts.1 + c) + parts.2 + (d + parts.3 + e + parts.4 + f));
    assert(whole =~= (a + parts.0 + b + parts.1 + c + parts.2 + d) + parts.3 + (e + parts.4 + f));
}

/// Texts that differ only in the middle differ.
proof fn lemma_middle_shows(lead: Seq<char>, left: Seq<char>, right: Seq<char>, rest: Seq<char>)
    ensures
        left != right ==> lead + left + rest != lead + right + rest,
{
    let one = lead + left + rest;
    let other = lead + right + rest;
    if one == other {
        assert(one.len() == lead.len() + left.len() + rest.len());
        assert(other.len() == lead.len() + right.len() + rest.len());
        assert forall|i: int| 0 <= i < left.len() implies left[i] == right[i] by {
            assert(one[lead.len() + i] == left[i]);
            assert(other[lead.len() + i] == right[i]);
        }
        assert(left =~= right);
    }
}

proof fn lemma_content_shows(left: CacheKeyInput, right: CacheKeyInput)
    ensures
        key_bytes(left) == key_bytes(right) ==> input_text(left) == input_text(right),
{
    if key_bytes(left) == key_bytes(right) {
        let a = encode_utf8(input_text(left));
        let b = encode_utf8(input_text(right));
        let lead = encode_utf8("soundar-video-cache-v1\0"@);
        let ahead = lead.len() + 8;
        assert(key_bytes(left).skip(ahead as int) =~= a);
        assert(key_bytes(right).skip(ahead as int) =~= b);
        vstd::utf8::encode_utf8_decode_utf8(input_text(left));
        vstd::utf8::encode_utf8_decode_utf8(input_text(right));
    }
}

/// The artifacts and the tools that go into a key show in it too: two inputs that agree but for their artifacts, or but
/// for their tools, and are not written alike there, are not hashed from the same bytes.
pub proof fn artifacts_and_tools_show(left: CacheKeyInput, right: CacheKeyInput)
    requires
        left.stage == right.stage,
        left.stage_version == right.stage_version,
        left.scene_id == right.scene_id,
        left.manifest_slice == right.manifest_slice,
        left.profile == right.profile,
    ensures
        ({
            let same_artifacts = artifacts_text(left) == artifacts_text(right);
            let same_tools = object_text(tool_entries(left.tool_versions.deep_view())) == object_text(
                tool_entries(right.tool_versions.deep_view()),
            );
            &&& !same_artifacts && same_tools ==> key_bytes(left) != key_bytes(right)
            &&& same_artifacts && !same_tools ==> key_bytes(left) != key_bytes(right)
        }),
{
    let lead = "{\"stage\":"@ + json_quoted(left.stage.name()) + ",\"stage_version\":"@ + json_quoted(
        left.stage_version@,
    ) + ",\"scene_id\":"@ + optional_quoted(left.scene_id.deep_view()) + ",\"input_artifacts\":["@;
    let between = "],\"tool_versions\":"@;
    let y = ",\"manifest_slice\":"@;
    let z = canonical_text(left.manifest_slice);
    let e = ",\"profile\":"@;
    let p = canonical_text(left.profile);
    let f = "}"@;
    let a = artifacts_text(left);
    let b = artifacts_text(right);
    let t = object_text(tool_entries(left.tool_versions.deep_view()));
    let u = object_text(tool_entries(right.tool_versions.deep_view()));
    let tail = y + z + e + p + f;
    lemma_two_parts(lead, a, between, t, y, z, e, p, f);
    lemma_two_parts(lead, b, between, u, y, z, e, p, f);
    lemma_middle_shows(lead, a, b, between + t + tail);
    lemma_middle_shows(lead + a + between, t, u, tail);
    lemma_content_shows(left, right);
}

/// What is written of an input's artifacts.
pub open spec fn artifacts_text(input: CacheKeyInput) -> Seq<char> {
    listed_from(artifact_texts(ranked::<CacheArtifactInput>(input.input_artifacts.deep_view())), 0)
}

proof fn lemma_two_parts(
    lead: Seq<char>,
    first: Seq<char>,
    between: Seq<char>,
    second: Seq<char>,
    y: Seq<char>,
    z: Seq<char>,
    e: Seq<char>,
    p: Seq<char>,
    f: Seq<char>,
)
    ensures
        lead + first + between + second + y + z + e + p + f == lead + first + (between + second + (y + z + e + p + f)),
        lead + first + between + second + y + z + e + p + f == (lead + first + between) + second + (y + z + e + p + f),
{
    let whole = lead + first + between + second + y + z + e + p + f;
    assert(whole =~= lead + first + (between + second + (y + z + e + p + f)));
    assert(whole =~= (lead + first + between) + second + (y + z + e + p + f));
}

} // verus!
