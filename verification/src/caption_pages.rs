//! The pages of a caption: how many words fit on one, and when each is shown.

use crate::caption_presets::{caption_preset, preset_of, AssCaptionPreset, CaptionPagingRules};
use crate::captions::{
    cased, cased_from, chunks_from, copy_token, divided, divisible, division_fault, larger, lemma_cut_within,
    parts_fill_the_range, pieces, positive_weights_are_divisible, shown_words, smaller, split_from, spoken_tokens,
    timed_caption_tokens, tokens_fault, tokens_of, weigh, weighted_ranges, weights_of, CaptionPage, CaptionPageModel,
    TimedCaptionToken, TimedCaptionTokenModel, MIN_ASS_PAGE_DURATION_US,
};
use crate::error::{fault, fault_at, or_else, refusal, refuse, unless, Fault, VideoError, VideoErrorCode, VideoResult};
use crate::manifest::{CaptionCue, CaptionCueModel, VideoProjectManifest, VideoProjectManifestModel};
use crate::text::{chars_in, chars_of};
use crate::time::{on_clock, range_fault, Microseconds, TimeRange};
use crate::validate::{style_fault, CaptionPresetId};
use crate::words::words_of;
use vstd::prelude::*;

verus! {

impl CaptionPagingRules {
    /// Whether a page has room for a line and a line for a character.
    pub open spec fn usable(self) -> bool {
        &&& 0 < self.max_chars_per_line
        &&& 0 < self.max_lines
    }
}

// ---------------------------------------------------------------------------------------------
// Lines
// ---------------------------------------------------------------------------------------------
/// How many characters a line has once a token follows what is on it.
pub open spec fn line_with(token: TimedCaptionTokenModel, place: int, chars: int) -> int {
    chars + (if place > 0 && token.space_before {
        1int
    } else {
        0
    }) + token.text.len()
}

/// Before which of the tokens from a place on a line breaks, given the line and how full it is. It is
/// `None` where a token does not fit on a line or the lines do not fit on the page.
pub open spec fn breaks_from(
    tokens: Seq<TimedCaptionTokenModel>,
    rules: CaptionPagingRules,
    place: int,
    line: int,
    chars: int,
) -> Option<Seq<bool>>
    decreases tokens.len() - place,
{
    if place < 0 || place >= tokens.len() {
        Some(Seq::empty())
    } else {
        let length = tokens[place].text.len() as int;
        let full = line_with(tokens[place], place, chars);
        let breaks = chars > 0 && full > rules.max_chars_per_line;
        let next = if breaks {
            line + 1
        } else {
            line
        };
        if length == 0 || length > rules.max_chars_per_line || next > rules.max_lines {
            None
        } else {
            match breaks_from(
                tokens,
                rules,
                place + 1,
                next,
                if breaks {
                    length
                } else {
                    full
                },
            ) {
                Some(rest) => Some(seq![breaks] + rest),
                None => None,
            }
        }
    }
}

/// Before which tokens a line breaks, where they fit on a page.
pub open spec fn line_breaks(tokens: Seq<TimedCaptionTokenModel>, rules: CaptionPagingRules) -> Option<Seq<bool>> {
    breaks_from(tokens, rules, 0, 1, 0)
}

/// Before which tokens a line breaks, where they fit on a page.
pub fn caption_line_breaks(tokens: &Vec<TimedCaptionToken>, rules: CaptionPagingRules) -> (result: Option<Vec<bool>>)
    ensures
        match result {
            Some(breaks) => line_breaks(tokens.deep_view(), rules) == Some(breaks@),
            None => line_breaks(tokens.deep_view(), rules) is None,
        },
{
    let ghost model = tokens.deep_view();
    let ghost whole = line_breaks(model, rules);
    let mut breaks: Vec<bool> = Vec::new();
    let mut line: usize = 1;
    let mut chars: usize = 0;
    let mut place: usize = 0;
    assert(whole matches Some(all) ==> breaks@ + all =~= all);
    while place < tokens.len()
        invariant
            place <= tokens.len(),
            model == tokens.deep_view(),
            1 <= line,
            place > 0 ==> line <= rules.max_lines,
            chars <= rules.max_chars_per_line,
            place > 0 <==> chars > 0,
            whole == line_breaks(model, rules),
            whole == (match breaks_from(model, rules, place as int, line as int, chars as int) {
                Some(rest) => Some(breaks@ + rest),
                None => None,
            }),
        decreases tokens.len() - place,
    {
        assert(model[place as int] == tokens[place as int].deep_view());
        let length: usize = chars_in(tokens[place].text.as_str());
        if length == 0 || length > rules.max_chars_per_line {
            return None;
        }
        let separator: usize = if place > 0 && tokens[place].space_before {
            1
        } else {
            0
        };
        let ghost before = breaks@;
        let room: usize = rules.max_chars_per_line - chars;
        let wraps: bool = chars > 0 && (length > room || separator > room - length);
        if wraps {
            if line >= rules.max_lines {
                return None;
            }
            line = line + 1;
            chars = length;
        } else {
            if line > rules.max_lines {
                return None;
            }
            chars = chars + separator + length;
        }
        breaks.push(wraps);
        proof {
            let rest = breaks_from(model, rules, place + 1, line as int, chars as int);
            if rest is Some {
                assert(breaks@ + rest->0 =~= before + (seq![wraps] + rest->0));
            }
        }
        place += 1;
    }
    assert(breaks@ + Seq::<bool>::empty() =~= breaks@);
    Some(breaks)
}

proof fn lemma_breaks_length(
    tokens: Seq<TimedCaptionTokenModel>,
    rules: CaptionPagingRules,
    place: int,
    line: int,
    chars: int,
)
    requires
        0 <= place <= tokens.len(),
    ensures
        breaks_from(tokens, rules, place, line, chars) matches Some(breaks) ==> breaks.len() == tokens.len() - place,
    decreases tokens.len() - place,
{
    if place < tokens.len() {
        let length = tokens[place].text.len() as int;
        let full = line_with(tokens[place], place, chars);
        let breaks = chars > 0 && full > rules.max_chars_per_line;
        lemma_breaks_length(
            tokens,
            rules,
            place + 1,
            if breaks {
                line + 1
            } else {
                line
            },
            if breaks {
                length
            } else {
                full
            },
        );
    }
}

/// There is an answer for every token.
pub proof fn lemma_line_breaks(tokens: Seq<TimedCaptionTokenModel>, rules: CaptionPagingRules)
    ensures
        line_breaks(tokens, rules) matches Some(breaks) ==> breaks.len() == tokens.len(),
{
    lemma_breaks_length(tokens, rules, 0, 1, 0);
}

proof fn lemma_breaks_fit(
    tokens: Seq<TimedCaptionTokenModel>,
    rules: CaptionPagingRules,
    place: int,
    line: int,
    chars: int,
)
    requires
        0 <= place <= tokens.len(),
        breaks_from(tokens, rules, place, line, chars) is Some,
    ensures
        forall|i: int| place <= i < tokens.len() ==> 0 < (#[trigger] tokens[i]).text.len() <= rules.max_chars_per_line,
    decreases tokens.len() - place,
{
    if place < tokens.len() {
        let length = tokens[place].text.len() as int;
        let full = line_with(tokens[place], place, chars);
        let breaks = chars > 0 && full > rules.max_chars_per_line;
        lemma_breaks_fit(
            tokens,
            rules,
            place + 1,
            if breaks {
                line + 1
            } else {
                line
            },
            if breaks {
                length
            } else {
                full
            },
        );
    }
}

/// Tokens that fit on a page fit on lines.
pub proof fn lemma_page_fits_lines(tokens: Seq<TimedCaptionTokenModel>, rules: CaptionPagingRules)
    requires
        line_breaks(tokens, rules) is Some,
    ensures
        fit_lines(tokens, rules),
{
    lemma_breaks_fit(tokens, rules, 0, 1, 0);
}

/// Whether two lists of tokens differ in their times alone.
pub open spec fn same_words(left: Seq<TimedCaptionTokenModel>, right: Seq<TimedCaptionTokenModel>) -> bool {
    &&& left.len() == right.len()
    &&& forall|i: int|
        0 <= i < left.len() ==> (#[trigger] left[i]).text == right[i].text && left[i].space_before
            == right[i].space_before
}

proof fn lemma_breaks_same(
    left: Seq<TimedCaptionTokenModel>,
    right: Seq<TimedCaptionTokenModel>,
    rules: CaptionPagingRules,
    place: int,
    line: int,
    chars: int,
)
    requires
        same_words(left, right),
        0 <= place <= left.len(),
    ensures
        breaks_from(left, rules, place, line, chars) == breaks_from(right, rules, place, line, chars),
    decreases left.len() - place,
{
    if place < left.len() {
        let length = left[place].text.len() as int;
        let full = line_with(left[place], place, chars);
        let breaks = chars > 0 && full > rules.max_chars_per_line;
        lemma_breaks_same(
            left,
            right,
            rules,
            place + 1,
            if breaks {
                line + 1
            } else {
                line
            },
            if breaks {
                length
            } else {
                full
            },
        );
    }
}

// ---------------------------------------------------------------------------------------------
// Groups of tokens
// ---------------------------------------------------------------------------------------------
/// Whether one more token fits on a page.
pub open spec fn accepts(
    current: Seq<TimedCaptionTokenModel>,
    candidate: TimedCaptionTokenModel,
    rules: CaptionPagingRules,
) -> bool {
    current.len() < rules.max_words && line_breaks(current.push(candidate), rules) is Some
}

/// Whether a phrase ends with a word.
pub open spec fn ends_phrase(text: Seq<char>) -> bool {
    text.len() > 0 && (text.last() == '.' || text.last() == '!' || text.last() == '?' || text.last() == '…'
        || text.last() == ',' || text.last() == ';' || text.last() == ':' || text.last() == '—')
}

/// The groups of the tokens from a place on, behind those that are done and the one that is not: a
/// token that does not fit starts the next, and the end of a phrase ends the group it is in.
pub open spec fn grouped_from(
    tokens: Seq<TimedCaptionTokenModel>,
    rules: CaptionPagingRules,
    place: int,
    done: Seq<Seq<TimedCaptionTokenModel>>,
    current: Seq<TimedCaptionTokenModel>,
) -> Seq<Seq<TimedCaptionTokenModel>>
    decreases tokens.len() - place,
{
    if place < 0 || place >= tokens.len() {
        if current.len() > 0 {
            done.push(current)
        } else {
            done
        }
    } else {
        let token = tokens[place];
        let full = current.len() > 0 && !accepts(current, token, rules);
        let ready = if full {
            done.push(current)
        } else {
            done
        };
        let begun = if full {
            seq![token]
        } else {
            current.push(token)
        };
        if rules.break_on_punctuation && begun.len() >= 2 && ends_phrase(token.text) {
            grouped_from(tokens, rules, place + 1, ready.push(begun), Seq::empty())
        } else {
            grouped_from(tokens, rules, place + 1, ready, begun)
        }
    }
}

/// Whether a last word that stands alone joins the group before it.
pub open spec fn last_joins(groups: Seq<Seq<TimedCaptionTokenModel>>, rules: CaptionPagingRules) -> bool {
    groups.len() >= 2 && groups.last().len() == 1 && accepts(groups[groups.len() - 2], groups.last()[0], rules)
}

pub open spec fn settled(groups: Seq<Seq<TimedCaptionTokenModel>>, rules: CaptionPagingRules) -> Seq<
    Seq<TimedCaptionTokenModel>,
> {
    if last_joins(groups, rules) {
        groups.take(groups.len() - 2).push(groups[groups.len() - 2] + groups.last())
    } else {
        groups
    }
}

/// The groups that the tokens of a caption make.
pub open spec fn groups_of(tokens: Seq<TimedCaptionTokenModel>, rules: CaptionPagingRules) -> Seq<
    Seq<TimedCaptionTokenModel>,
> {
    settled(grouped_from(tokens, rules, 0, Seq::empty(), Seq::empty()), rules)
}

fn copy_tokens(tokens: &Vec<TimedCaptionToken>) -> (copy: Vec<TimedCaptionToken>)
    ensures
        copy.deep_view() == tokens.deep_view(),
{
    let mut copy: Vec<TimedCaptionToken> = Vec::new();
    let mut place: usize = 0;
    while place < tokens.len()
        invariant
            place <= tokens.len(),
            copy.len() == place,
            forall|i: int| 0 <= i < place ==> (#[trigger] copy[i]).deep_view() == tokens[i].deep_view(),
        decreases tokens.len() - place,
    {
        copy.push(copy_token(&tokens[place]));
        place += 1;
    }
    assert(copy.deep_view() =~= tokens.deep_view());
    copy
}

fn caption_page_accepts(current: &Vec<TimedCaptionToken>, candidate: &TimedCaptionToken, rules: CaptionPagingRules) -> (
result: bool)
    ensures
        result == accepts(current.deep_view(), candidate.deep_view(), rules),
{
    assert(current.deep_view().len() == current.len());
    if current.len() >= rules.max_words {
        return false;
    }
    let mut proposed: Vec<TimedCaptionToken> = copy_tokens(current);
    proposed.push(copy_token(candidate));
    assert(proposed.deep_view() =~= current.deep_view().push(candidate.deep_view()));
    caption_line_breaks(&proposed, rules).is_some()
}

fn caption_token_ends_phrase(value: &str) -> (result: bool)
    ensures
        result == ends_phrase(value@),
{
    let chars: Vec<char> = chars_of(value);
    if chars.len() == 0 {
        return false;
    }
    let last: char = chars[chars.len() - 1];
    last == '.' || last == '!' || last == '?' || last == '…' || last == ',' || last == ';' || last == ':' || last
        == '—'
}

fn group_tokens(tokens: &Vec<TimedCaptionToken>, rules: CaptionPagingRules) -> (groups: Vec<Vec<TimedCaptionToken>>)
    ensures
        groups.deep_view() == grouped_from(tokens.deep_view(), rules, 0, Seq::empty(), Seq::empty()),
{
    let ghost model = tokens.deep_view();
    let ghost whole = grouped_from(model, rules, 0, Seq::empty(), Seq::empty());
    let mut groups: Vec<Vec<TimedCaptionToken>> = Vec::new();
    let mut current: Vec<TimedCaptionToken> = Vec::new();
    let mut place: usize = 0;
    assert(groups.deep_view() =~= Seq::empty());
    assert(current.deep_view() =~= Seq::empty());
    while place < tokens.len()
        invariant
            place <= tokens.len(),
            model == tokens.deep_view(),
            whole == grouped_from(model, rules, place as int, groups.deep_view(), current.deep_view()),
        decreases tokens.len() - place,
    {
        let token: &TimedCaptionToken = &tokens[place];
        assert(model[place as int] == token.deep_view());
        assert(current.deep_view().len() == current.len());
        let ghost done = groups.deep_view();
        let ghost begun = current.deep_view();
        if current.len() > 0 && !caption_page_accepts(&current, token, rules) {
            groups.push(current);
            assert(groups.deep_view() =~= done.push(begun));
            current = Vec::new();
            current.push(copy_token(token));
            assert(current.deep_view() =~= seq![token.deep_view()]);
        } else {
            current.push(copy_token(token));
            assert(current.deep_view() =~= begun.push(token.deep_view()));
        }
        assert(current.deep_view().len() == current.len());
        if rules.break_on_punctuation && current.len() >= 2 && caption_token_ends_phrase(token.text.as_str()) {
            let ghost ready = groups.deep_view();
            let ghost ended = current.deep_view();
            groups.push(current);
            assert(groups.deep_view() =~= ready.push(ended));
            current = Vec::new();
            assert(current.deep_view() =~= Seq::empty());
        }
        place += 1;
    }
    assert(current.deep_view().len() == current.len());
    if current.len() > 0 {
        let ghost done = groups.deep_view();
        let ghost begun = current.deep_view();
        groups.push(current);
        assert(groups.deep_view() =~= done.push(begun));
    }
    groups
}

fn settle(groups: Vec<Vec<TimedCaptionToken>>, rules: CaptionPagingRules) -> (result: Vec<Vec<TimedCaptionToken>>)
    ensures
        result.deep_view() == settled(groups.deep_view(), rules),
{
    let ghost model = groups.deep_view();
    let mut result: Vec<Vec<TimedCaptionToken>> = groups;
    let count: usize = result.len();
    assert(model.len() == count);
    if count < 2 {
        return result;
    }
    assert(model[count - 1] == result[count - 1].deep_view());
    assert(model[count - 2] == result[count - 2].deep_view());
    assert(model.last().len() == result[count - 1].len());
    if result[count - 1].len() != 1 {
        return result;
    }
    assert(model.last()[0] == result[count - 1][0].deep_view());
    if !caption_page_accepts(&result[count - 2], &result[count - 1][0], rules) {
        return result;
    }
    let mut joined: Vec<TimedCaptionToken> = copy_tokens(&result[count - 2]);
    joined.push(copy_token(&result[count - 1][0]));
    assert(joined.deep_view() =~= model[count - 2] + model.last());
    result.truncate(count - 2);
    assert(result.deep_view() =~= model.take(count - 2));
    let ghost fewer = result.deep_view();
    let ghost own = joined.deep_view();
    result.push(joined);
    assert(result.deep_view() =~= fewer.push(own));
    result
}

// ---------------------------------------------------------------------------------------------
// Pages
// ---------------------------------------------------------------------------------------------
/// How long each page is shown at least.
pub open spec fn page_least(rules: CaptionPagingRules, length: int, count: int) -> int {
    larger(smaller(rules.preferred_min_page_us as int, length / count), MIN_ASS_PAGE_DURATION_US as int)
}

/// When the page at a place starts: with its first word, but no sooner than the page before it has
/// been shown long enough, and no later than leaves the pages from it on long enough.
pub open spec fn boundary(groups: Seq<Seq<TimedCaptionTokenModel>>, cue: TimeRange, least: int, place: int) -> int
    decreases place,
{
    if place <= 0 {
        cue.start()
    } else if place >= groups.len() {
        cue.end()
    } else {
        smaller(
            larger(groups[place][0].start_us.0 as int, boundary(groups, cue, least, place - 1) + least),
            cue.end() - (groups.len() - place) * least,
        )
    }
}

/// Whether a word has ended when the next one starts.
pub open spec fn follows(tokens: Seq<TimedCaptionTokenModel>, place: int) -> bool {
    tokens[place].end_us.0 <= tokens[place + 1].start_us.0
}

/// Whether words are said one after the other between two instants.
pub open spec fn inside(tokens: Seq<TimedCaptionTokenModel>, start: int, end: int) -> bool {
    &&& forall|i: int|
        0 <= i < tokens.len() ==> start <= (#[trigger] tokens[i]).start_us.0 < tokens[i].end_us.0 && tokens[i].end_us.0
            <= end
    &&& forall|i: int| 0 <= i < tokens.len() - 1 ==> #[trigger] follows(tokens, i)
}

pub open spec fn texts_of(tokens: Seq<TimedCaptionTokenModel>) -> Seq<Seq<char>> {
    Seq::new(tokens.len(), |i: int| tokens[i].text)
}

pub open spec fn span(start: int, end: int) -> TimeRange {
    TimeRange { start_us: Microseconds(start as i64), end_us: Microseconds(end as i64) }
}

/// Words paced anew between two instants, in proportion to their lengths.
pub open spec fn repaced(tokens: Seq<TimedCaptionTokenModel>, start: int, end: int) -> Seq<TimedCaptionTokenModel> {
    let ranges = divided(span(start, end), weights_of(texts_of(tokens)));
    Seq::new(
        tokens.len(),
        |i: int|
            TimedCaptionTokenModel { start_us: ranges[i].start_us, end_us: ranges[i].end_us, ..tokens[i] },
    )
}

/// A page: its words keep their times where they lie on the page one after the other, and are paced
/// anew where they do not.
pub open spec fn page_of(groups: Seq<Seq<TimedCaptionTokenModel>>, cue: TimeRange, least: int, place: int) -> CaptionPageModel {
    let start = boundary(groups, cue, least, place);
    let end = boundary(groups, cue, least, place + 1);
    CaptionPageModel {
        tokens: if inside(groups[place], start, end) {
            groups[place]
        } else {
            repaced(groups[place], start, end)
        },
        start_us: Microseconds(start as i64),
        end_us: Microseconds(end as i64),
    }
}

pub open spec fn page_fault(groups: Seq<Seq<TimedCaptionTokenModel>>, cue: TimeRange, least: int, place: int) -> Option<Fault> {
    let start = boundary(groups, cue, least, place);
    let end = boundary(groups, cue, least, place + 1);
    if inside(groups[place], start, end) {
        None
    } else {
        or_else(
            range_fault(start, end),
            division_fault(span(start, end), weights_of(texts_of(groups[place]))),
        )
    }
}

pub open spec fn page_faults_from(
    groups: Seq<Seq<TimedCaptionTokenModel>>,
    cue: TimeRange,
    least: int,
    place: int,
) -> Option<Fault>
    decreases groups.len() - place,
{
    if place < 0 || place >= groups.len() {
        None
    } else {
        or_else(page_fault(groups, cue, least, place), page_faults_from(groups, cue, least, place + 1))
    }
}

/// The pages that tokens make in a cue.
pub open spec fn pages_of(tokens: Seq<TimedCaptionTokenModel>, cue: TimeRange, rules: CaptionPagingRules) -> Seq<
    CaptionPageModel,
> {
    let groups = groups_of(tokens, rules);
    let least = page_least(rules, cue.length(), groups.len() as int);
    Seq::new(groups.len(), |i: int| page_of(groups, cue, least, i))
}

/// Why tokens make no pages in a cue.
pub open spec fn paging_fault(tokens: Seq<TimedCaptionTokenModel>, cue: TimeRange, rules: CaptionPagingRules) -> Option<Fault> {
    let groups = groups_of(tokens, rules);
    or_else(
        unless(
            groups.len() > 0,
            fault(VideoErrorCode::InvalidCaption, "caption paging produced no display pages"@),
        ),
        or_else(
            unless(
                on_clock(cue.length()),
                fault(VideoErrorCode::ArithmeticOverflow, "time range duration overflowed"@),
            ),
            or_else(
                unless(
                    groups.len() <= i64::MAX,
                    fault(
                        VideoErrorCode::ArithmeticOverflow,
                        "caption page count exceeded the timeline clock"@,
                    ),
                ),
                or_else(
                    unless(
                        groups.len() * MIN_ASS_PAGE_DURATION_US <= i64::MAX,
                        fault(VideoErrorCode::ArithmeticOverflow, "caption page duration overflowed"@),
                    ),
                    or_else(
                        unless(
                            cue.length() >= groups.len() * MIN_ASS_PAGE_DURATION_US,
                            fault_at(
                                VideoErrorCode::InvalidCaption,
                                "caption text cannot be safely paged inside its cue duration"@,
                                "captions.range"@,
                            ),
                        ),
                        page_faults_from(
                            groups,
                            cue,
                            page_least(rules, cue.length(), groups.len() as int),
                            0,
                        ),
                    ),
                ),
            ),
        ),
    )
}

proof fn lemma_least(rules: CaptionPagingRules, length: int, count: int)
    requires
        count > 0,
        length >= count * MIN_ASS_PAGE_DURATION_US,
    ensures
        MIN_ASS_PAGE_DURATION_US <= page_least(rules, length, count) <= length / count,
        count * page_least(rules, length, count) <= length,
{
    let least = page_least(rules, length, count);
    assert(length / count >= 20_000) by (nonlinear_arith)
        requires
            count > 0,
            length >= count * 20_000,
    ;
    assert(count * least <= length) by (nonlinear_arith)
        requires
            count > 0,
            least <= length / count,
    ;
}

/// Each page is shown for long enough, and the pages from each on still fit.
proof fn lemma_boundary(groups: Seq<Seq<TimedCaptionTokenModel>>, cue: TimeRange, least: int, place: int)
    requires
        0 <= place <= groups.len(),
        groups.len() > 0,
        least > 0,
        groups.len() * least <= cue.length(),
    ensures
        cue.start() <= boundary(groups, cue, least, place) <= cue.end() - (groups.len() - place) * least,
        place > 0 ==> boundary(groups, cue, least, place) >= boundary(groups, cue, least, place - 1) + least,
    decreases place,
{
    let count = groups.len() as int;
    if place > 0 {
        lemma_boundary(groups, cue, least, place - 1);
        assert((count - (place - 1)) * least == (count - place) * least + least) by (nonlinear_arith);
    }
    if place == count {
        assert((count - place) * least == 0) by (nonlinear_arith)
            requires
                place == count,
        ;
    } else {
        assert((count - place) * least <= count * least) by (nonlinear_arith)
            requires
                0 <= place,
                least > 0,
        ;
    }
}

fn lies_inside(tokens: &Vec<TimedCaptionToken>, start: i64, end: i64) -> (result: bool)
    ensures
        result == inside(tokens.deep_view(), start as int, end as int),
{
    let ghost model = tokens.deep_view();
    let mut place: usize = 0;
    while place < tokens.len()
        invariant
            place <= tokens.len(),
            model == tokens.deep_view(),
            forall|i: int|
                0 <= i < place ==> start <= (#[trigger] model[i]).start_us.0 < model[i].end_us.0 && model[i].end_us.0
                    <= end,
            forall|i: int| 0 <= i < place - 1 ==> #[trigger] follows(model, i),
        decreases tokens.len() - place,
    {
        let token: &TimedCaptionToken = &tokens[place];
        assert(model[place as int] == token.deep_view());
        if token.start_us.0 < start || token.end_us.0 > end || token.end_us.0 <= token.start_us.0 {
            return false;
        }
        if place > 0 {
            assert(model[place - 1] == tokens[place - 1].deep_view());
            if tokens[place - 1].end_us.0 > token.start_us.0 {
                assert(!follows(model, place - 1));
                return false;
            }
        }
        place += 1;
    }
    true
}

fn pace_anew(tokens: &Vec<TimedCaptionToken>, start: i64, end: i64) -> (result: VideoResult<Vec<TimedCaptionToken>>)
    ensures
        refusal(result) == or_else(
            range_fault(start as int, end as int),
            division_fault(
                span(start as int, end as int),
                weights_of(texts_of(tokens.deep_view())),
            ),
        ),
        result matches Ok(paced) ==> paced.deep_view() == repaced(tokens.deep_view(), start as int, end as int),
{
    let ghost model = tokens.deep_view();
    let range: TimeRange = TimeRange::new(start, end)?;
    let mut texts: Vec<String> = Vec::new();
    let mut place: usize = 0;
    while place < tokens.len()
        invariant
            place <= tokens.len(),
            model == tokens.deep_view(),
            texts.len() == place,
            forall|i: int| 0 <= i < place ==> (#[trigger] texts[i])@ == model[i].text,
        decreases tokens.len() - place,
    {
        assert(model[place as int] == tokens[place as int].deep_view());
        texts.push(tokens[place].text.clone());
        place += 1;
    }
    assert(texts.deep_view() =~= texts_of(model));
    let weights: Vec<usize> = weigh(&texts);
    let ranges: Vec<TimeRange> = weighted_ranges(range, &weights)?;
    let mut paced: Vec<TimedCaptionToken> = Vec::new();
    place = 0;
    while place < tokens.len()
        invariant
            place <= tokens.len(),
            tokens.len() == ranges.len(),
            model == tokens.deep_view(),
            paced.len() == place,
            forall|i: int|
                0 <= i < place ==> (#[trigger] paced[i]).deep_view() == (TimedCaptionTokenModel {
                    start_us: ranges[i].start_us,
                    end_us: ranges[i].end_us,
                    ..model[i]
                }),
        decreases tokens.len() - place,
    {
        assert(model[place as int] == tokens[place as int].deep_view());
        paced.push(
            TimedCaptionToken {
                text: tokens[place].text.clone(),
                space_before: tokens[place].space_before,
                start_us: ranges[place].start_us,
                end_us: ranges[place].end_us,
            },
        );
        place += 1;
    }
    assert(paced.deep_view() =~= repaced(model, start as int, end as int));
    Ok(paced)
}

fn find_boundaries(groups: &Vec<Vec<TimedCaptionToken>>, cue: TimeRange, least: i64) -> (boundaries: Vec<i64>)
    requires
        groups.len() > 0,
        least > 0,
        groups.len() * least <= cue.length() <= i64::MAX,
        forall|i: int| 0 <= i < groups.len() ==> (#[trigger] groups.deep_view()[i]).len() > 0,
    ensures
        boundaries.len() == groups.len() + 1,
        forall|i: int|
            0 <= i < boundaries.len() ==> #[trigger] boundaries[i] == boundary(
                groups.deep_view(),
                cue,
                least as int,
                i,
            ),
{
    let ghost model = groups.deep_view();
    let count: usize = groups.len();
    let mut boundaries: Vec<i64> = Vec::new();
    boundaries.push(cue.start_us.0);
    let mut place: usize = 1;
    while place < count
        invariant
            1 <= place <= count,
            count == groups.len(),
            model == groups.deep_view(),
            model.len() == count,
            least > 0,
            count * least <= cue.length() <= i64::MAX,
            forall|i: int| 0 <= i < count ==> (#[trigger] model[i]).len() > 0,
            boundaries.len() == place,
            forall|i: int|
                0 <= i < boundaries.len() ==> #[trigger] boundaries[i] == boundary(model, cue, least as int, i),
        decreases count - place,
    {
        proof {
            lemma_boundary(model, cue, least as int, place - 1);
            lemma_boundary(model, cue, least as int, place as int);
            assert((count - place) * least <= count * least && (count - place) * least >= 0) by (nonlinear_arith)
                requires
                    0 <= place <= count,
                    least > 0,
            ;
            assert((count - (place - 1)) * least == (count - place) * least + least) by (nonlinear_arith);
            assert(count - place <= (count - place) * least) by (nonlinear_arith)
                requires
                    place <= count,
                    least > 0,
            ;
            assert(boundaries[place - 1] == boundary(model, cue, least as int, place - 1));
            assert(model[place as int] == groups[place as int].deep_view());
            assert(model[place as int].len() == groups[place as int].len());
            assert(model[place as int][0] == groups[place as int][0].deep_view());
        }
        let lower: i64 = boundaries[place - 1] + least;
        let reserved: i64 = (count - place) as i64 * least;
        let upper: i64 = cue.end_us.0 - reserved;
        let desired: i64 = groups[place][0].start_us.0;
        let wanted: i64 = if desired >= lower {
            desired
        } else {
            lower
        };
        let start: i64 = if wanted <= upper {
            wanted
        } else {
            upper
        };
        boundaries.push(start);
        place += 1;
    }
    boundaries.push(cue.end_us.0);
    boundaries
}

proof fn lemma_groups_filled(
    tokens: Seq<TimedCaptionTokenModel>,
    rules: CaptionPagingRules,
    place: int,
    done: Seq<Seq<TimedCaptionTokenModel>>,
    current: Seq<TimedCaptionTokenModel>,
)
    requires
        0 <= place <= tokens.len(),
        forall|i: int| 0 <= i < done.len() ==> (#[trigger] done[i]).len() > 0,
    ensures
        forall|i: int|
            0 <= i < grouped_from(tokens, rules, place, done, current).len() ==> (#[trigger] grouped_from(
                tokens,
                rules,
                place,
                done,
                current,
            )[i]).len() > 0,
    decreases tokens.len() - place,
{
    let whole = grouped_from(tokens, rules, place, done, current);
    if place < tokens.len() {
        let token = tokens[place];
        let full = current.len() > 0 && !accepts(current, token, rules);
        let ready = if full {
            done.push(current)
        } else {
            done
        };
        let begun = if full {
            seq![token]
        } else {
            current.push(token)
        };
        if rules.break_on_punctuation && begun.len() >= 2 && ends_phrase(token.text) {
            lemma_groups_filled(tokens, rules, place + 1, ready.push(begun), Seq::empty());
            assert(whole == grouped_from(tokens, rules, place + 1, ready.push(begun), Seq::empty()));
        } else {
            lemma_groups_filled(tokens, rules, place + 1, ready, begun);
            assert(whole == grouped_from(tokens, rules, place + 1, ready, begun));
        }
    }
}

proof fn lemma_filled(tokens: Seq<TimedCaptionTokenModel>, rules: CaptionPagingRules)
    ensures
        forall|i: int| 0 <= i < groups_of(tokens, rules).len() ==> (#[trigger] groups_of(tokens, rules)[i]).len() > 0,
{
    lemma_groups_filled(tokens, rules, 0, Seq::empty(), Seq::empty());
}

fn make_pages(groups: &Vec<Vec<TimedCaptionToken>>, cue: TimeRange, least: i64) -> (result: VideoResult<
    Vec<CaptionPage>,
>)
    requires
        groups.len() > 0,
        least > 0,
        groups.len() * least <= cue.length() <= i64::MAX,
        forall|i: int| 0 <= i < groups.len() ==> (#[trigger] groups.deep_view()[i]).len() > 0,
    ensures
        refusal(result) == page_faults_from(groups.deep_view(), cue, least as int, 0),
        result matches Ok(pages) ==> pages.deep_view() == Seq::new(
            groups.deep_view().len(),
            |i: int| page_of(groups.deep_view(), cue, least as int, i),
        ),
{
    let ghost model = groups.deep_view();
    let boundaries: Vec<i64> = find_boundaries(groups, cue, least);
    let mut pages: Vec<CaptionPage> = Vec::new();
    let mut place: usize = 0;
    while place < groups.len()
        invariant
            place <= groups.len(),
            model == groups.deep_view(),
            model.len() == groups.len(),
            boundaries.len() == groups.len() + 1,
            forall|i: int|
                0 <= i < boundaries.len() ==> #[trigger] boundaries[i] == boundary(model, cue, least as int, i),
            pages.len() == place,
            forall|i: int|
                0 <= i < place ==> (#[trigger] pages[i]).deep_view() == page_of(model, cue, least as int, i),
            page_faults_from(model, cue, least as int, 0) == page_faults_from(
                model,
                cue,
                least as int,
                place as int,
            ),
        decreases groups.len() - place,
    {
        assert(model[place as int] == groups[place as int].deep_view());
        let start: i64 = boundaries[place];
        let end: i64 = boundaries[place + 1];
        assert(end == boundary(model, cue, least as int, place + 1));
        let tokens: Vec<TimedCaptionToken> = if lies_inside(&groups[place], start, end) {
            copy_tokens(&groups[place])
        } else {
            pace_anew(&groups[place], start, end)?
        };
        pages.push(CaptionPage { tokens, start_us: Microseconds(start), end_us: Microseconds(end) });
        place += 1;
    }
    assert(pages.deep_view() =~= Seq::new(model.len(), |i: int| page_of(model, cue, least as int, i)));
    Ok(pages)
}

/// Pages the tokens of a cue.
pub fn paginate_caption_tokens(tokens: &Vec<TimedCaptionToken>, cue_range: TimeRange, rules: CaptionPagingRules) -> (
result: VideoResult<Vec<CaptionPage>>)
    ensures
        refusal(result) == paging_fault(tokens.deep_view(), cue_range, rules),
        result matches Ok(pages) ==> pages.deep_view() == pages_of(tokens.deep_view(), cue_range, rules),
{
    let raw: Vec<Vec<TimedCaptionToken>> = group_tokens(tokens, rules);
    let groups: Vec<Vec<TimedCaptionToken>> = settle(raw, rules);
    let ghost model = groups.deep_view();
    assert(model == groups_of(tokens.deep_view(), rules));
    assert(model.len() == groups.len());
    if groups.len() == 0 {
        return Err(
            VideoError::new(VideoErrorCode::InvalidCaption, "caption paging produced no display pages"),
        );
    }
    let duration: i64 = cue_range.duration()?.0;
    if groups.len() as u64 > i64::MAX as u64 {
        return Err(
            VideoError::new(
                VideoErrorCode::ArithmeticOverflow,
                "caption page count exceeded the timeline clock",
            ),
        );
    }
    let count: i64 = groups.len() as i64;
    if count > i64::MAX / MIN_ASS_PAGE_DURATION_US {
        return Err(
            VideoError::new(VideoErrorCode::ArithmeticOverflow, "caption page duration overflowed"),
        );
    }
    if duration < count * MIN_ASS_PAGE_DURATION_US {
        return Err(
            refuse(
                VideoErrorCode::InvalidCaption,
                "caption text cannot be safely paged inside its cue duration",
                "captions.range",
            ),
        );
    }
    let share: i64 = duration / count;
    let preferred: i64 = if rules.preferred_min_page_us <= share {
        rules.preferred_min_page_us
    } else {
        share
    };
    let least: i64 = if preferred >= MIN_ASS_PAGE_DURATION_US {
        preferred
    } else {
        MIN_ASS_PAGE_DURATION_US
    };
    proof {
        assert(least == page_least(rules, cue_range.length(), count as int));
        lemma_least(rules, duration as int, count as int);
        lemma_filled(tokens.deep_view(), rules);
    }
    make_pages(&groups, cue_range, least)
}

// ---------------------------------------------------------------------------------------------
// What holds of every page
// ---------------------------------------------------------------------------------------------
/// Whether every token says something and fits on a line.
pub open spec fn fit_lines(tokens: Seq<TimedCaptionTokenModel>, rules: CaptionPagingRules) -> bool {
    forall|i: int| 0 <= i < tokens.len() ==> 0 < (#[trigger] tokens[i]).text.len() <= rules.max_chars_per_line
}

/// Whether a group fits on a page.
pub open spec fn fits_page(group: Seq<TimedCaptionTokenModel>, rules: CaptionPagingRules) -> bool {
    0 < group.len() <= larger(rules.max_words as int, 1) && line_breaks(group, rules) is Some
}

proof fn lemma_one_fits(token: TimedCaptionTokenModel, rules: CaptionPagingRules)
    requires
        rules.usable(),
        0 < token.text.len() <= rules.max_chars_per_line,
    ensures
        fits_page(seq![token], rules),
{
    let one = seq![token];
    assert(one[0] == token);
    reveal_with_fuel(breaks_from, 2);
}

proof fn lemma_groups_fit(
    tokens: Seq<TimedCaptionTokenModel>,
    rules: CaptionPagingRules,
    place: int,
    done: Seq<Seq<TimedCaptionTokenModel>>,
    current: Seq<TimedCaptionTokenModel>,
)
    requires
        rules.usable(),
        fit_lines(tokens, rules),
        0 <= place <= tokens.len(),
        forall|i: int| 0 <= i < done.len() ==> fits_page(#[trigger] done[i], rules),
        current.len() > 0 ==> fits_page(current, rules),
    ensures
        forall|i: int|
            0 <= i < grouped_from(tokens, rules, place, done, current).len() ==> fits_page(
                #[trigger] grouped_from(tokens, rules, place, done, current)[i],
                rules,
            ),
    decreases tokens.len() - place,
{
    let whole = grouped_from(tokens, rules, place, done, current);
    if place < tokens.len() {
        let token = tokens[place];
        let full = current.len() > 0 && !accepts(current, token, rules);
        let ready = if full {
            done.push(current)
        } else {
            done
        };
        let begun = if full {
            seq![token]
        } else {
            current.push(token)
        };
        lemma_one_fits(token, rules);
        if current.len() == 0 {
            assert(current.push(token) =~= seq![token]);
        }
        assert(fits_page(begun, rules));
        if rules.break_on_punctuation && begun.len() >= 2 && ends_phrase(token.text) {
            lemma_groups_fit(tokens, rules, place + 1, ready.push(begun), Seq::empty());
            assert(whole == grouped_from(tokens, rules, place + 1, ready.push(begun), Seq::empty()));
        } else {
            lemma_groups_fit(tokens, rules, place + 1, ready, begun);
            assert(whole == grouped_from(tokens, rules, place + 1, ready, begun));
        }
    }
}

/// Every group that fitting tokens make fits on a page.
pub proof fn lemma_groups_fit_pages(tokens: Seq<TimedCaptionTokenModel>, rules: CaptionPagingRules)
    requires
        rules.usable(),
        fit_lines(tokens, rules),
    ensures
        forall|i: int| 0 <= i < groups_of(tokens, rules).len() ==> fits_page(#[trigger] groups_of(tokens, rules)[i], rules),
{
    lemma_groups_fit(tokens, rules, 0, Seq::empty(), Seq::empty());
    let raw = grouped_from(tokens, rules, 0, Seq::empty(), Seq::empty());
    let groups = groups_of(tokens, rules);
    if last_joins(raw, rules) {
        let prior = raw[raw.len() - 2];
        assert(prior + raw.last() =~= prior.push(raw.last()[0]));
        assert forall|i: int| 0 <= i < groups.len() implies fits_page(#[trigger] groups[i], rules) by {
            if i < raw.len() - 2 {
                assert(groups[i] == raw[i]);
            }
        }
    }
}

/// Where a caption pages, every page keeps to the lines and the words that its rules allow.
pub proof fn pages_keep_to_their_lines(
    tokens: Seq<TimedCaptionTokenModel>,
    cue: TimeRange,
    rules: CaptionPagingRules,
    place: int,
)
    requires
        rules.usable(),
        fit_lines(tokens, rules),
        0 <= place < pages_of(tokens, cue, rules).len(),
    ensures
        line_breaks(pages_of(tokens, cue, rules)[place].tokens, rules) is Some,
        0 < pages_of(tokens, cue, rules)[place].tokens.len() <= larger(rules.max_words as int, 1),
{
    lemma_groups_fit_pages(tokens, rules);
    let groups = groups_of(tokens, rules);
    let page = pages_of(tokens, cue, rules)[place];
    assert(fits_page(groups[place], rules));
    assert(same_words(page.tokens, groups[place]));
    lemma_breaks_same(page.tokens, groups[place], rules, 0, 1, 0);
}

proof fn lemma_page_sound(groups: Seq<Seq<TimedCaptionTokenModel>>, cue: TimeRange, least: int, from: int, place: int)
    requires
        0 <= from <= place < groups.len(),
        page_faults_from(groups, cue, least, from) is None,
    ensures
        page_fault(groups, cue, least, place) is None,
    decreases place - from,
{
    if from < place {
        lemma_page_sound(groups, cue, least, from + 1, place);
    }
}

proof fn lemma_repaced_inside(tokens: Seq<TimedCaptionTokenModel>, start: int, end: int)
    requires
        on_clock(start),
        on_clock(end),
        start < end,
        forall|i: int| 0 <= i < tokens.len() ==> (#[trigger] tokens[i]).text.len() <= usize::MAX,
        division_fault(span(start, end), weights_of(texts_of(tokens))) is None,
    ensures
        inside(repaced(tokens, start, end), start, end),
{
    let range = span(start, end);
    let weights = weights_of(texts_of(tokens));
    let paced = repaced(tokens, start, end);
    assert(divisible(weights)) by {
        assert forall|i: int| 0 <= i < weights.len() implies #[trigger] weights[i] > 0 by {
            assert(texts_of(tokens)[i] == tokens[i].text);
        }
        positive_weights_are_divisible(weights);
    }
    assert forall|i: int| 0 <= i < paced.len() implies start <= (#[trigger] paced[i]).start_us.0
        < paced[i].end_us.0 && paced[i].end_us.0 <= end by {
        parts_fill_the_range(range, weights, i);
        lemma_cut_within(range, weights, i);
        lemma_cut_within(range, weights, i + 1);
    }
    assert forall|i: int| 0 <= i < paced.len() - 1 implies #[trigger] follows(paced, i) by {
        parts_fill_the_range(range, weights, i);
    }
}

/// The pages of a caption start where its cue starts, meet end to start, and end where it ends. Each
/// is shown for at least the shortest time, and its words are said on it, one after the other.
pub proof fn pages_fill_the_cue(
    tokens: Seq<TimedCaptionTokenModel>,
    cue: TimeRange,
    rules: CaptionPagingRules,
    place: int,
)
    requires
        paging_fault(tokens, cue, rules) is None,
        cue.valid(),
        forall|i: int| 0 <= i < tokens.len() ==> (#[trigger] tokens[i]).text.len() <= usize::MAX,
        0 <= place < pages_of(tokens, cue, rules).len(),
    ensures
        ({
            let pages = pages_of(tokens, cue, rules);
            let page = pages[place];
            &&& place == 0 ==> page.start_us == cue.start_us
            &&& place + 1 < pages.len() ==> page.end_us == pages[place + 1].start_us
            &&& place + 1 == pages.len() ==> page.end_us == cue.end_us
            &&& page.end_us.0 - page.start_us.0 >= MIN_ASS_PAGE_DURATION_US
            &&& inside(page.tokens, page.start_us.0 as int, page.end_us.0 as int)
        }),
{
    let groups = groups_of(tokens, rules);
    let count = groups.len() as int;
    let least = page_least(rules, cue.length(), count);
    lemma_least(rules, cue.length(), count);
    lemma_boundary(groups, cue, least, place);
    lemma_boundary(groups, cue, least, place + 1);
    assert((count - place) * least >= 0 && (count - (place + 1)) * least >= 0) by (nonlinear_arith)
        requires
            place + 1 <= count,
            least > 0,
    ;
    lemma_page_sound(groups, cue, least, 0, place);
    let start = boundary(groups, cue, least, place);
    let end = boundary(groups, cue, least, place + 1);
    if !inside(groups[place], start, end) {
        lemma_group_tokens(tokens, rules);
        assert forall|i: int| 0 <= i < groups[place].len() implies (#[trigger] groups[place][i]).text.len()
            <= usize::MAX by {
            assert(tokens.contains(groups[place][i]));
        }
        lemma_repaced_inside(groups[place], start, end);
    }
}

/// The tokens of the first groups, one after the other.
pub open spec fn flat(groups: Seq<Seq<TimedCaptionTokenModel>>, count: int) -> Seq<TimedCaptionTokenModel>
    decreases count,
{
    if count <= 0 {
        Seq::empty()
    } else {
        flat(groups, count - 1) + groups[count - 1]
    }
}

proof fn lemma_flat_prefix(left: Seq<Seq<TimedCaptionTokenModel>>, right: Seq<Seq<TimedCaptionTokenModel>>, count: int)
    requires
        0 <= count <= left.len(),
        count <= right.len(),
        forall|i: int| 0 <= i < count ==> left[i] == right[i],
    ensures
        flat(left, count) == flat(right, count),
    decreases count,
{
    if count > 0 {
        lemma_flat_prefix(left, right, count - 1);
    }
}

proof fn lemma_flat_push(groups: Seq<Seq<TimedCaptionTokenModel>>, group: Seq<TimedCaptionTokenModel>)
    ensures
        flat(groups.push(group), groups.len() as int + 1) == flat(groups, groups.len() as int) + group,
{
    lemma_flat_prefix(groups.push(group), groups, groups.len() as int);
}

proof fn lemma_grouping_keeps(
    tokens: Seq<TimedCaptionTokenModel>,
    rules: CaptionPagingRules,
    place: int,
    done: Seq<Seq<TimedCaptionTokenModel>>,
    current: Seq<TimedCaptionTokenModel>,
)
    requires
        0 <= place <= tokens.len(),
        flat(done, done.len() as int) + current == tokens.take(place),
    ensures
        flat(
            grouped_from(tokens, rules, place, done, current),
            grouped_from(tokens, rules, place, done, current).len() as int,
        ) == tokens,
    decreases tokens.len() - place,
{
    if place < tokens.len() {
        let token = tokens[place];
        let full = current.len() > 0 && !accepts(current, token, rules);
        let ready = if full {
            done.push(current)
        } else {
            done
        };
        let begun = if full {
            seq![token]
        } else {
            current.push(token)
        };
        lemma_flat_push(done, current);
        assert(tokens.take(place + 1) =~= tokens.take(place).push(token));
        let said = flat(done, done.len() as int);
        if full {
            assert((said + current) + seq![token] =~= (said + current).push(token));
        } else {
            assert(said + current.push(token) =~= (said + current).push(token));
        }
        assert(flat(ready, ready.len() as int) + begun == tokens.take(place + 1));
        if rules.break_on_punctuation && begun.len() >= 2 && ends_phrase(token.text) {
            lemma_flat_push(ready, begun);
            assert(flat(ready.push(begun), ready.len() as int + 1) + Seq::<TimedCaptionTokenModel>::empty()
                =~= flat(ready.push(begun), ready.len() as int + 1));
            lemma_grouping_keeps(tokens, rules, place + 1, ready.push(begun), Seq::empty());
        } else {
            lemma_grouping_keeps(tokens, rules, place + 1, ready, begun);
        }
    } else {
        assert(tokens.take(place) =~= tokens);
        lemma_flat_push(done, current);
        if current.len() == 0 {
            assert(flat(done, done.len() as int) + current =~= flat(done, done.len() as int));
        }
    }
}

/// The groups hold every token, in order.
pub proof fn groups_keep_every_token(tokens: Seq<TimedCaptionTokenModel>, rules: CaptionPagingRules)
    ensures
        flat(groups_of(tokens, rules), groups_of(tokens, rules).len() as int) == tokens,
{
    let none = Seq::<Seq<TimedCaptionTokenModel>>::empty();
    let nothing = Seq::<TimedCaptionTokenModel>::empty();
    assert(flat(none, 0) + nothing =~= tokens.take(0));
    lemma_grouping_keeps(tokens, rules, 0, none, nothing);
    let raw = grouped_from(tokens, rules, 0, none, nothing);
    let groups = groups_of(tokens, rules);
    if last_joins(raw, rules) {
        let count = raw.len() as int;
        lemma_flat_prefix(groups, raw, count - 2);
        assert(flat(groups, count - 1) == flat(raw, count - 2) + (raw[count - 2] + raw[count - 1]));
        assert(flat(raw, count - 1) == flat(raw, count - 2) + raw[count - 2]);
        assert(flat(raw, count) == (flat(raw, count - 2) + raw[count - 2]) + raw[count - 1]);
        assert(flat(groups, count - 1) =~= flat(raw, count));
    }
}

proof fn lemma_flat_holds(groups: Seq<Seq<TimedCaptionTokenModel>>, count: int, place: int, index: int)
    requires
        0 <= place < count <= groups.len(),
        0 <= index < groups[place].len(),
    ensures
        flat(groups, count).contains(groups[place][index]),
    decreases count,
{
    let before = flat(groups, count - 1);
    let whole = flat(groups, count);
    if place < count - 1 {
        lemma_flat_holds(groups, count - 1, place, index);
        let at = choose|at: int| 0 <= at < before.len() && before[at] == groups[place][index];
        assert(whole[at] == groups[place][index]);
    } else {
        assert(whole[before.len() + index] == groups[place][index]);
    }
}

proof fn lemma_group_tokens(tokens: Seq<TimedCaptionTokenModel>, rules: CaptionPagingRules)
    ensures
        forall|place: int, index: int|
            0 <= place < groups_of(tokens, rules).len() && 0 <= index < groups_of(tokens, rules)[place].len()
                ==> tokens.contains(#[trigger] groups_of(tokens, rules)[place][index]),
{
    groups_keep_every_token(tokens, rules);
    let groups = groups_of(tokens, rules);
    assert forall|place: int, index: int|
        0 <= place < groups.len() && 0 <= index < groups[place].len() implies tokens.contains(
        #[trigger] groups[place][index],
    ) by {
        lemma_flat_holds(groups, groups.len() as int, place, index);
    }
}

// ---------------------------------------------------------------------------------------------
// The pages of a cue
// ---------------------------------------------------------------------------------------------
/// The look of a cue's own style.
pub open spec fn cue_preset(cue: CaptionCueModel) -> AssCaptionPreset {
    preset_of(CaptionPresetId::named(cue.style_id)->0)
}

/// The pages of a cue.
pub open spec fn cue_pages(m: VideoProjectManifestModel, cue: CaptionCueModel) -> Seq<CaptionPageModel> {
    pages_of(tokens_of(m, cue, cue_preset(cue)), cue.range, cue_preset(cue).paging)
}

/// Why a cue has no pages.
pub open spec fn cue_fault(m: VideoProjectManifestModel, cue: CaptionCueModel) -> Option<Fault> {
    or_else(
        style_fault(cue.style_id),
        or_else(
            tokens_fault(m, cue, cue_preset(cue)),
            paging_fault(tokens_of(m, cue, cue_preset(cue)), cue.range, cue_preset(cue).paging),
        ),
    )
}

/// Every look has room for a line.
pub proof fn every_preset_has_room(id: CaptionPresetId)
    ensures
        preset_of(id).paging.usable(),
        preset_of(id).paging.max_words >= 1,
{
}

/// Pages a cue in its own style.
pub fn planned_caption_pages_for_cue(manifest: &VideoProjectManifest, caption: &CaptionCue) -> (result: VideoResult<
    (AssCaptionPreset, Vec<CaptionPage>),
>)
    ensures
        refusal(result) == cue_fault(manifest.deep_view(), caption.deep_view()),
        result matches Ok(planned) ==> planned.0 == cue_preset(caption.deep_view()) && planned.1.deep_view()
            == cue_pages(manifest.deep_view(), caption.deep_view()),
{
    let id: CaptionPresetId = CaptionPresetId::parse(caption.style_id.as_str())?;
    let preset: AssCaptionPreset = caption_preset(id);
    proof {
        every_preset_has_room(id);
    }
    let tokens: Vec<TimedCaptionToken> = timed_caption_tokens(manifest, caption, &preset)?;
    let pages: Vec<CaptionPage> = paginate_caption_tokens(&tokens, caption.range, preset.paging)?;
    Ok((preset, pages))
}

proof fn lemma_chunks_fit(text: Seq<char>, size: int, from: int)
    requires
        0 < size,
        0 <= from,
    ensures
        forall|i: int|
            0 <= i < chunks_from(text, size, from).len() ==> 0 < (#[trigger] chunks_from(text, size, from)[i]).len()
                <= size,
    decreases text.len() - from,
{
    if from < text.len() {
        let to = smaller(from + size, text.len() as int);
        lemma_chunks_fit(text, size, to);
        let rest = chunks_from(text, size, to);
        let whole = chunks_from(text, size, from);
        assert(whole == seq![text.subrange(from, to)] + rest);
        assert forall|i: int| 0 <= i < whole.len() implies 0 < (#[trigger] whole[i]).len() <= size by {
            if i > 0 {
                assert(whole[i] == rest[i - 1]);
            }
        }
    }
}

proof fn lemma_split_fits(tokens: Seq<TimedCaptionTokenModel>, size: int, place: int)
    requires
        0 < size,
        0 <= place <= tokens.len(),
        forall|i: int| 0 <= i < tokens.len() ==> (#[trigger] tokens[i]).text.len() > 0,
    ensures
        forall|i: int|
            0 <= i < split_from(tokens, size, place).len() ==> 0 < (#[trigger] split_from(
                tokens,
                size,
                place,
            )[i]).text.len() <= size,
    decreases tokens.len() - place,
{
    if place < tokens.len() {
        lemma_split_fits(tokens, size, place + 1);
        lemma_chunks_fit(tokens[place].text, size, 0);
        let own = pieces(tokens[place], size);
        let rest = split_from(tokens, size, place + 1);
        let whole = split_from(tokens, size, place);
        assert(whole == own + rest);
        assert forall|i: int| 0 <= i < whole.len() implies 0 < (#[trigger] whole[i]).text.len() <= size by {
            if i >= own.len() {
                assert(whole[i] == rest[i - own.len()]);
            } else if tokens[place].text.len() > size {
                assert(whole[i] == own[i]);
                assert(own[i].text == chunks_from(tokens[place].text, size, 0)[i]);
            } else {
                assert(whole[i] == tokens[place]);
            }
        }
    }
}

proof fn lemma_cased_filled(words: Seq<Seq<char>>, preset: AssCaptionPreset, place: int)
    requires
        0 <= place <= words.len(),
    ensures
        forall|i: int|
            0 <= i < cased_from(words, preset, place).len() ==> (#[trigger] cased_from(words, preset, place)[i]).len()
                > 0,
    decreases words.len() - place,
{
    if place < words.len() {
        lemma_cased_filled(words, preset, place + 1);
        let rest = cased_from(words, preset, place + 1);
        let whole = cased_from(words, preset, place);
        if cased(words[place], preset).len() > 0 {
            assert(whole == seq![cased(words[place], preset)] + rest);
            assert forall|i: int| 0 <= i < whole.len() implies (#[trigger] whole[i]).len() > 0 by {
                if i > 0 {
                    assert(whole[i] == rest[i - 1]);
                }
            }
        }
    }
}

/// Every token of a cue says something and fits on a line of the cue's look.
pub proof fn cue_tokens_fit_lines(m: VideoProjectManifestModel, cue: CaptionCueModel, preset: AssCaptionPreset)
    requires
        preset.paging.usable(),
    ensures
        fit_lines(tokens_of(m, cue, preset), preset.paging),
{
    let words = shown_words(cue.text, preset);
    lemma_cased_filled(words_of(cue.text), preset, 0);
    let spoken = spoken_tokens(m, cue, preset);
    assert forall|i: int| 0 <= i < spoken.len() implies (#[trigger] spoken[i]).text.len() > 0 by {
        assert(spoken[i].text == words[i]);
    }
    lemma_split_fits(spoken, preset.paging.max_chars_per_line as int, 0);
}

/// Where a cue pages, the lines of each page fit its look.
pub proof fn cue_pages_fit_lines(m: VideoProjectManifestModel, cue: CaptionCueModel, place: int)
    requires
        cue_fault(m, cue) is None,
        0 <= place < cue_pages(m, cue).len(),
    ensures
        line_breaks(cue_pages(m, cue)[place].tokens, cue_preset(cue).paging) is Some,
        0 < cue_pages(m, cue)[place].tokens.len() <= cue_preset(cue).paging.max_words,
{
    let preset = cue_preset(cue);
    every_preset_has_room(CaptionPresetId::named(cue.style_id)->0);
    cue_tokens_fit_lines(m, cue, preset);
    pages_keep_to_their_lines(tokens_of(m, cue, preset), cue.range, preset.paging, place);
}

/// A page comes with its first word, wherever that leaves the page before it and the pages behind it long enough.
/// Otherwise it comes as near to it as that allows.
pub proof fn a_page_comes_with_its_first_word(
    tokens: Seq<TimedCaptionTokenModel>,
    cue: TimeRange,
    rules: CaptionPagingRules,
    place: int,
)
    requires
        paging_fault(tokens, cue, rules) is None,
        cue.valid(),
        forall|i: int| 0 <= i < tokens.len() ==> (#[trigger] tokens[i]).text.len() <= usize::MAX,
        0 < place < pages_of(tokens, cue, rules).len(),
    ensures
        ({
            let groups = groups_of(tokens, rules);
            let pages = pages_of(tokens, cue, rules);
            let count = pages.len() as int;
            let least = page_least(rules, cue.length(), count);
            let word = groups[place][0].start_us.0;
            let soonest = pages[place - 1].start_us.0 + least;
            let latest = cue.end_us.0 - (count - place) * least;
            &&& count == groups.len()
            &&& soonest <= word <= latest ==> pages[place].start_us.0 == word
            &&& word < soonest <= latest ==> pages[place].start_us.0 == soonest
            &&& word > latest ==> pages[place].start_us.0 == latest
        }),
{
    let groups = groups_of(tokens, rules);
    let count = groups.len() as int;
    let least = page_least(rules, cue.length(), count);
    lemma_least(rules, cue.length(), count);
    lemma_boundary(groups, cue, least, place);
    lemma_boundary(groups, cue, least, place - 1);
    assert((count - place) * least >= 0 && (count - (place - 1)) * least >= 0) by (nonlinear_arith)
        requires
            place <= count,
            least > 0,
    ;
}

/// The words of a page keep their times where they are said on it, one behind the other; otherwise they are paced
/// anew, and in either case they are the words of the caption.
pub proof fn words_keep_their_times_on_their_page(
    groups: Seq<Seq<TimedCaptionTokenModel>>,
    cue: TimeRange,
    least: int,
    place: int,
    index: int,
)
    requires
        0 <= place < groups.len(),
        0 <= index < groups[place].len(),
    ensures
        ({
            let page = page_of(groups, cue, least, place);
            let word = groups[place][index];
            &&& page.tokens.len() == groups[place].len()
            &&& page.tokens[index].text == word.text
            &&& page.tokens[index].space_before == word.space_before
            &&& inside(
                groups[place],
                boundary(groups, cue, least, place),
                boundary(groups, cue, least, place + 1),
            ) ==> page.tokens[index] == word
        }),
{
}

/// Where a look breaks at punctuation, a group that reaches the end of a phrase ends with it: no word behind the first
/// and before the last of a group ends a phrase.
pub proof fn groups_end_with_their_phrase(
    tokens: Seq<TimedCaptionTokenModel>,
    rules: CaptionPagingRules,
    place: int,
    done: Seq<Seq<TimedCaptionTokenModel>>,
    current: Seq<TimedCaptionTokenModel>,
)
    requires
        0 <= place <= tokens.len(),
        rules.break_on_punctuation,
        forall|g: int, i: int|
            0 <= g < done.len() && 1 <= i < done[g].len() - 1 ==> !ends_phrase(#[trigger] done[g][i].text),
        forall|i: int| 1 <= i < current.len() ==> !ends_phrase(#[trigger] current[i].text),
    ensures
        forall|g: int, i: int|
            0 <= g < grouped_from(tokens, rules, place, done, current).len() && 1 <= i < grouped_from(
                tokens,
                rules,
                place,
                done,
                current,
            )[g].len() - 1 ==> !ends_phrase(#[trigger] grouped_from(tokens, rules, place, done, current)[g][i].text),
    decreases tokens.len() - place,
{
    if place < tokens.len() {
        let token = tokens[place];
        let full = current.len() > 0 && !accepts(current, token, rules);
        let ready = if full {
            done.push(current)
        } else {
            done
        };
        let begun = if full {
            seq![token]
        } else {
            current.push(token)
        };
        assert forall|g: int, i: int| 0 <= g < ready.len() && 1 <= i < ready[g].len() - 1 implies !ends_phrase(
            #[trigger] ready[g][i].text,
        ) by {
            if g < done.len() {
                assert(!ends_phrase(done[g][i].text));
            } else {
                assert(!ends_phrase(current[i].text));
            }
        }
        if begun.len() >= 2 && ends_phrase(token.text) {
            let next = ready.push(begun);
            assert forall|g: int, i: int| 0 <= g < next.len() && 1 <= i < next[g].len() - 1 implies !ends_phrase(
                #[trigger] next[g][i].text,
            ) by {
                if g == ready.len() {
                    assert(begun[i] == current[i]);
                }
            }
            groups_end_with_their_phrase(tokens, rules, place + 1, next, Seq::empty());
            assert(grouped_from(tokens, rules, place, done, current) == grouped_from(
                tokens,
                rules,
                place + 1,
                next,
                Seq::empty(),
            ));
        } else {
            assert forall|i: int| 1 <= i < begun.len() implies !ends_phrase(#[trigger] begun[i].text) by {
                if i < current.len() {
                    assert(begun[i] == current[i]);
                }
            }
            groups_end_with_their_phrase(tokens, rules, place + 1, ready, begun);
            assert(grouped_from(tokens, rules, place, done, current) == grouped_from(
                tokens,
                rules,
                place + 1,
                ready,
                begun,
            ));
        }
    } else {
        let all = grouped_from(tokens, rules, place, done, current);
        assert forall|g: int, i: int| 0 <= g < all.len() && 1 <= i < all[g].len() - 1 implies !ends_phrase(
            #[trigger] all[g][i].text,
        ) by {
            if g < done.len() {
                assert(all[g] == done[g]);
                assert(!ends_phrase(done[g][i].text));
            } else {
                assert(all[g] == current);
                assert(!ends_phrase(current[i].text));
            }
        }
    }
}

/// Each page is shown for as long as the look prefers where there is time for it, else for an equal share of the cue,
/// and never for less than the shortest time.
pub proof fn pages_are_shown_as_long_as_preferred(rules: CaptionPagingRules, length: int, count: int)
    requires
        0 < count,
        0 <= length,
    ensures
        ({
            let least = page_least(rules, length, count);
            &&& least >= MIN_ASS_PAGE_DURATION_US
            &&& rules.preferred_min_page_us >= MIN_ASS_PAGE_DURATION_US && rules.preferred_min_page_us * count <= length
                ==> least == rules.preferred_min_page_us
            &&& least > MIN_ASS_PAGE_DURATION_US ==> least * count <= length && least <= rules.preferred_min_page_us
        }),
{
    let share = length / count;
    let preferred = rules.preferred_min_page_us as int;
    vstd::arithmetic::div_mod::lemma_fundamental_div_mod(length, count);
    vstd::arithmetic::div_mod::lemma_mod_bound(length, count);
    assert(share * count == count * share) by (nonlinear_arith);
    if preferred * count <= length {
        assert(preferred <= share) by (nonlinear_arith)
            requires
                preferred * count <= length,
                length < share * count + count,
                count > 0,
        ;
    }
    let least = page_least(rules, length, count);
    if least <= share {
        assert(least * count <= share * count) by (nonlinear_arith)
            requires
                least <= share,
                count > 0,
        ;
    }
}

} // verus!
