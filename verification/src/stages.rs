//! The stages of the pipeline that a change to a project makes stale.

use crate::manifest::RevisionStage;
use crate::order::{an_ordered_set_has_one_form, is_ordered_set, with_item, Ranked};
use crate::text::text_eq;
use vstd::prelude::*;

verus! {

impl RevisionStage {
    /// The place of a stage in the order of the stages.
    pub open spec fn place(self) -> int {
        match self {
            RevisionStage::Ingest => 0,
            RevisionStage::Transcript => 1,
            RevisionStage::Analysis => 2,
            RevisionStage::Plan => 3,
            RevisionStage::Speech => 4,
            RevisionStage::Music => 5,
            RevisionStage::Captions => 6,
            RevisionStage::Tracking => 7,
            RevisionStage::SceneRender => 8,
            RevisionStage::Preview => 9,
            RevisionStage::FinalRender => 10,
            RevisionStage::PublishPackage => 11,
        }
    }

    fn number(self) -> (number: u8)
        ensures
            number == self.place(),
    {
        match self {
            RevisionStage::Ingest => 0,
            RevisionStage::Transcript => 1,
            RevisionStage::Analysis => 2,
            RevisionStage::Plan => 3,
            RevisionStage::Speech => 4,
            RevisionStage::Music => 5,
            RevisionStage::Captions => 6,
            RevisionStage::Tracking => 7,
            RevisionStage::SceneRender => 8,
            RevisionStage::Preview => 9,
            RevisionStage::FinalRender => 10,
            RevisionStage::PublishPackage => 11,
        }
    }
}

impl Ranked for RevisionStage {
    open spec fn before(left: RevisionStage, right: RevisionStage) -> bool {
        left.place() < right.place()
    }

    fn comes_before(&self, other: &Self) -> (result: bool) {
        self.number() < other.number()
    }

    proof fn before_is_an_order(a: RevisionStage, b: RevisionStage, c: RevisionStage) {
    }
}

/// The stages that a change to one part of a project makes stale.
#[derive(Clone, Debug, PartialEq, Eq)]
pub struct PathStages {
    /// The part, as its path in the manifest.
    pub path: String,
    pub stages: Vec<RevisionStage>,
}

/// What [`PathStages`] hold, as mathematical values.
pub struct PathStagesModel {
    pub path: Seq<char>,
    pub stages: Seq<RevisionStage>,
}

impl DeepView for PathStages {
    type V = PathStagesModel;

    open spec fn deep_view(&self) -> PathStagesModel {
        PathStagesModel { path: self.path@, stages: self.stages.deep_view() }
    }
}

/// Whether a change to one of the parts makes a stage stale.
pub open spec fn is_stale(table: Seq<PathStagesModel>, paths: Seq<Seq<char>>, stage: RevisionStage) -> bool {
    exists|i: int|
        0 <= i < table.len() && paths.contains((#[trigger] table[i]).path) && table[i].stages.contains(stage)
}

/// Whether stages are, in order and each once, those that a change to the parts makes stale.
pub open spec fn are_stale(stages: Seq<RevisionStage>, table: Seq<PathStagesModel>, paths: Seq<Seq<char>>) -> bool {
    &&& is_ordered_set::<RevisionStage>(stages)
    &&& forall|stage: RevisionStage| #[trigger] stages.contains(stage) <==> is_stale(table, paths, stage)
}

/// Only one list holds the stages that a change makes stale.
pub proof fn stale_stages_have_one_form(
    left: Seq<RevisionStage>,
    right: Seq<RevisionStage>,
    table: Seq<PathStagesModel>,
    paths: Seq<Seq<char>>,
)
    requires
        are_stale(left, table, paths),
        are_stale(right, table, paths),
    ensures
        left == right,
{
    assert forall|stage: RevisionStage| #[trigger] left.to_set().contains(stage) <==> right.to_set().contains(
        stage,
    ) by {
        assert(left.to_set().contains(stage) <==> left.contains(stage));
        assert(right.to_set().contains(stage) <==> right.contains(stage));
    }
    assert(left.to_set() =~= right.to_set());
    an_ordered_set_has_one_form::<RevisionStage>(left, right);
}

/// Changes to more parts make no fewer stages stale.
pub proof fn more_changes_keep_stages_stale(
    table: Seq<PathStagesModel>,
    paths: Seq<Seq<char>>,
    more: Seq<Seq<char>>,
    stage: RevisionStage,
)
    requires
        forall|path: Seq<char>| #[trigger] paths.contains(path) ==> more.contains(path),
        is_stale(table, paths, stage),
    ensures
        is_stale(table, more, stage),
{
    let i = choose|i: int|
        0 <= i < table.len() && paths.contains((#[trigger] table[i]).path) && table[i].stages.contains(stage);
    assert(more.contains(table[i].path));
}

fn is_listed(paths: &Vec<String>, path: &str) -> (listed: bool)
    ensures
        listed == paths.deep_view().contains(path@),
{
    let ghost model = paths.deep_view();
    let mut index: usize = 0;
    while index < paths.len()
        invariant
            index <= paths.len(),
            model == paths.deep_view(),
            forall|i: int| 0 <= i < index ==> #[trigger] model[i] != path@,
        decreases paths.len() - index,
    {
        assert(model[index as int] == paths[index as int]@);
        if text_eq(paths[index].as_str(), path) {
            assert(model.contains(path@));
            return true;
        }
        index += 1;
    }
    false
}

/// Adds stages to an ordered set of them.
fn with_stages(stages: Vec<RevisionStage>, more: &Vec<RevisionStage>) -> (result: Vec<RevisionStage>)
    requires
        is_ordered_set::<RevisionStage>(stages.deep_view()),
    ensures
        is_ordered_set::<RevisionStage>(result.deep_view()),
        forall|stage: RevisionStage| #[trigger]
            result.deep_view().contains(stage) <==> stages.deep_view().contains(stage) || more.deep_view().contains(
                stage,
            ),
{
    let ghost first = stages.deep_view();
    let ghost second = more.deep_view();
    let mut result: Vec<RevisionStage> = stages;
    let mut index: usize = 0;
    while index < more.len()
        invariant
            index <= more.len(),
            second == more.deep_view(),
            is_ordered_set::<RevisionStage>(result.deep_view()),
            forall|stage: RevisionStage| #[trigger]
                result.deep_view().contains(stage) <==> first.contains(stage) || second.take(index as int).contains(
                    stage,
                ),
        decreases more.len() - index,
    {
        let ghost before = result.deep_view();
        let stage: RevisionStage = more[index];
        assert(second[index as int] == stage);
        result = with_item(&result, stage);
        proof {
            let after = result.deep_view();
            let seen = second.take(index as int);
            let next = second.take(index + 1);
            assert(next =~= seen.push(stage));
            assert forall|other: RevisionStage| #[trigger] after.contains(other) <==> first.contains(other)
                || next.contains(other) by {
                assert(after.to_set().contains(other) <==> after.contains(other));
                assert(before.to_set().contains(other) <==> before.contains(other));
                assert(seen.push(stage).contains(other) <==> seen.contains(other) || other == stage) by {
                    if other == stage {
                        assert(seen.push(stage)[seen.len() as int] == stage);
                    }
                    if seen.contains(other) {
                        let k = choose|k: int| 0 <= k < seen.len() && seen[k] == other;
                        assert(seen.push(stage)[k] == other);
                    }
                }
            }
        }
        index += 1;
    }
    assert(second.take(more.len() as int) =~= second);
    result
}

/// The stages that changes to some parts of a project make stale: those that the table has for any of
/// them.
pub fn invalidated_stages_for_manifest_changes(changed_paths: &Vec<String>, table: &Vec<PathStages>) -> (stages: Vec<
    RevisionStage,
>)
    ensures
        are_stale(stages.deep_view(), table.deep_view(), changed_paths.deep_view()),
{
    let ghost model = table.deep_view();
    let ghost paths = changed_paths.deep_view();
    let mut stages: Vec<RevisionStage> = Vec::new();
    let mut index: usize = 0;
    assert(model.take(0) =~= Seq::empty());
    while index < table.len()
        invariant
            index <= table.len(),
            model == table.deep_view(),
            paths == changed_paths.deep_view(),
            are_stale(stages.deep_view(), model.take(index as int), paths),
        decreases table.len() - index,
    {
        let ghost before = stages.deep_view();
        let ghost seen = model.take(index as int);
        let ghost next = model.take(index + 1);
        let entry: &PathStages = &table[index];
        assert(model[index as int] == entry.deep_view());
        let listed: bool = is_listed(changed_paths, entry.path.as_str());
        if listed {
            stages = with_stages(stages, &entry.stages);
        }
        proof {
            assert forall|stage: RevisionStage| #[trigger] stages.deep_view().contains(stage) <==> is_stale(
                next,
                paths,
                stage,
            ) by {
                if is_stale(seen, paths, stage) {
                    let i = choose|i: int|
                        0 <= i < seen.len() && paths.contains((#[trigger] seen[i]).path) && seen[i].stages.contains(
                            stage,
                        );
                    assert(next[i] == seen[i]);
                }
                if is_stale(next, paths, stage) {
                    let i = choose|i: int|
                        0 <= i < next.len() && paths.contains((#[trigger] next[i]).path) && next[i].stages.contains(
                            stage,
                        );
                    if i < index {
                        assert(seen[i] == next[i]);
                    }
                }
                assert(next[index as int] == model[index as int]);
                assert(before.contains(stage) <==> is_stale(seen, paths, stage));
            }
        }
        index += 1;
    }
    assert(model.take(table.len() as int) =~= model);
    stages
}

} // verus!
