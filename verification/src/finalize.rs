//! Moving a finished download into place: the steps on disk, in their order, and what they
//! leave behind.

use crate::text::same_text;
use vstd::prelude::*;

verus! {

/// One step on disk.
#[derive(Clone, Debug, PartialEq, Eq)]
pub enum Step {
    /// Remove the file if it is there. Where `required` is set, a failure ends the
    /// transfer; otherwise it is passed over.
    Remove { path: String, required: bool },
    /// Move the file `from` to `to`; a failure ends the transfer.
    Rename { from: String, to: String },
}

/// One step on disk, as plain values.
pub enum StepView {
    Remove { path: Seq<char>, required: bool },
    Rename { from: Seq<char>, to: Seq<char> },
}

impl View for Step {
    type V = StepView;

    open spec fn view(&self) -> StepView {
        match self {
            Step::Remove { path, required } => StepView::Remove {
                path: path@,
                required: *required,
            },
            Step::Rename { from, to } => StepView::Rename { from: from@, to: to@ },
        }
    }
}

/// The steps of a sequence, as plain values.
pub open spec fn step_views(steps: Seq<Step>) -> Seq<StepView> {
    steps.map_values(|s: Step| s@)
}

/// The steps that move a finished download into place: the output that is there makes way,
/// the temp file takes its place, and the state file and its staging file go.
pub open spec fn finalizing(
    temp: Seq<char>,
    state: Seq<char>,
    staging: Seq<char>,
    output: Seq<char>,
) -> Seq<StepView> {
    seq![
        StepView::Remove { path: output, required: true },
        StepView::Rename { from: temp, to: output },
        StepView::Remove { path: state, required: false },
        StepView::Remove { path: staging, required: false },
    ]
}

/// Whether moving a download into place leaves the output there and nothing of the
/// transfer, whatever else is on disk: of any files among which the temp file is, the steps
/// leave the output, and neither the temp file nor the state file nor the staging file.
pub open spec fn leaves_the_output_only(
    temp: Seq<char>,
    state: Seq<char>,
    staging: Seq<char>,
    output: Seq<char>,
) -> bool {
    forall|files: Set<Seq<char>>|
        files.contains(temp) ==> {
            let left = #[trigger] after_steps(files, finalizing(temp, state, staging, output));
            &&& left.contains(output)
            &&& !left.contains(temp)
            &&& !left.contains(state)
            &&& !left.contains(staging)
        }
}

/// The steps that move a finished download into place. None where the temp file, the state
/// file or the staging file is the output itself: the steps would destroy what they are to
/// put into place. Otherwise the steps leave the output there and nothing of the transfer.
pub fn finalize_steps(temp: &str, state: &str, staging: &str, output: &str) -> (steps: Option<
    Vec<Step>,
>)
    ensures
        match steps {
            Some(list) => {
                &&& temp@ != output@ && state@ != output@ && staging@ != output@
                &&& step_views(list@) == finalizing(temp@, state@, staging@, output@)
                &&& leaves_the_output_only(temp@, state@, staging@, output@)
            },
            None => temp@ == output@ || state@ == output@ || staging@ == output@,
        },
{
    if same_text(temp, output) || same_text(state, output) || same_text(staging, output) {
        return None;
    }
    let mut steps: Vec<Step> = Vec::new();
    steps.push(Step::Remove { path: String::from_str(output), required: true });
    steps.push(Step::Rename { from: String::from_str(temp), to: String::from_str(output) });
    steps.push(Step::Remove { path: String::from_str(state), required: false });
    steps.push(Step::Remove { path: String::from_str(staging), required: false });
    proof {
        assert(step_views(steps@) =~= finalizing(temp@, state@, staging@, output@));
        assert forall|files: Set<Seq<char>>| files.contains(temp@) implies {
            let left = #[trigger] after_steps(
                files,
                finalizing(temp@, state@, staging@, output@),
            );
            &&& left.contains(output@)
            &&& !left.contains(temp@)
            &&& !left.contains(state@)
            &&& !left.contains(staging@)
        } by {
            lemma_finalizing_leaves_the_output_only(files, temp@, state@, staging@, output@);
        }
    }
    Some(steps)
}

/// The files that are there after a step that succeeds, given the files that were there
/// before it. A file that is moved must be there.
pub open spec fn after_step(files: Set<Seq<char>>, step: StepView) -> Set<Seq<char>> {
    match step {
        StepView::Remove { path, required } => files.remove(path),
        StepView::Rename { from, to } => if files.contains(from) {
            files.remove(from).insert(to)
        } else {
            files
        },
    }
}

/// The files that are there after a sequence of steps that succeed.
pub open spec fn after_steps(files: Set<Seq<char>>, steps: Seq<StepView>) -> Set<Seq<char>>
    decreases steps.len(),
{
    if steps.len() == 0 {
        files
    } else {
        after_step(after_steps(files, steps.drop_last()), steps.last())
    }
}

/// Once a download whose temp file is there has been moved into place, the output is there,
/// and the temp file, the state file and the staging file are not; no other file has come
/// or gone.
pub proof fn lemma_finalizing_leaves_the_output_only(
    files: Set<Seq<char>>,
    temp: Seq<char>,
    state: Seq<char>,
    staging: Seq<char>,
    output: Seq<char>,
)
    requires
        files.contains(temp),
        temp != output,
        state != output,
        staging != output,
    ensures
        ({
            let left = after_steps(files, finalizing(temp, state, staging, output));
            &&& left.contains(output)
            &&& !left.contains(temp)
            &&& !left.contains(state)
            &&& !left.contains(staging)
            &&& forall|other: Seq<char>|
                other != temp && other != state && other != staging && other != output ==> (
                left.contains(other) <==> files.contains(other))
        }),
{
    let steps = finalizing(temp, state, staging, output);
    let s3 = steps.drop_last();
    let s2 = s3.drop_last();
    let s1 = s2.drop_last();
    let s0 = s1.drop_last();
    assert(s0.len() == 0);
    assert(after_steps(files, s0) == files);
    assert(s1.last() == steps[0]);
    assert(s2.last() == steps[1]);
    assert(s3.last() == steps[2]);
    assert(steps.last() == steps[3]);
    let f1 = after_steps(files, s1);
    assert(f1 == files.remove(output));
    let f2 = after_steps(files, s2);
    assert(f1.contains(temp));
    assert(f2 == f1.remove(temp).insert(output));
    let f3 = after_steps(files, s3);
    assert(f3 == f2.remove(state));
    assert(after_steps(files, steps) == f3.remove(staging));
}

} // verus!
