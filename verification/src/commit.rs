//! The order in which a pass sends its requests and resizes the
//! framebuffer.

use vstd::prelude::*;
use crate::config::Mode;
use crate::server::CrtcRequest;

verus! {

/// One thing to ask of the server: a batch of controller requests, or a new
/// size of the framebuffer.
#[derive(Debug, PartialEq, Eq)]
pub enum Step {
    Batch(Vec<CrtcRequest>),
    Resize(Mode),
}

pub enum StepView {
    Batch(Seq<CrtcRequest>),
    Resize(Mode),
}

impl View for Step {
    type V = StepView;

    open spec fn view(&self) -> StepView {
        match self {
            Step::Batch(requests) => StepView::Batch(requests@),
            Step::Resize(size) => StepView::Resize(*size),
        }
    }
}

pub open spec fn step_views(steps: Seq<Step>) -> Seq<StepView> {
    Seq::new(steps.len(), |i: int| steps[i]@)
}

/// Nothing is to be sent: no controller to disable, none to reconfigure,
/// and the framebuffer has its target size.
pub open spec fn unchanged(
    disables: Seq<CrtcRequest>,
    enables: Seq<CrtcRequest>,
    current: Mode,
    target: Mode,
) -> bool {
    disables.len() == 0 && enables.len() == 0 && current == target
}

/// How many steps come before the batch that reconfigures controllers.
pub open spec fn steps_before_enable(disables: Seq<CrtcRequest>, current: Mode, target: Mode) -> int {
    (if disables.len() > 0 { 1int } else { 0int }) + (if current.union_spec(target) != current { 1int } else { 0int })
}

/// The steps of a commit, in the order in which they are sent: the
/// disables, if any; the framebuffer grown to hold both the current and the
/// target size, unless the current size does; the reconfigurations; the
/// framebuffer set to the target size, unless it has it by then.
pub open spec fn steps_of(
    disables: Seq<CrtcRequest>,
    enables: Seq<CrtcRequest>,
    current: Mode,
    target: Mode,
) -> Seq<StepView> {
    if unchanged(disables, enables, current, target) {
        Seq::empty()
    } else {
        let wide = current.union_spec(target);
        let first = if disables.len() > 0 { seq![StepView::Batch(disables)] } else { Seq::empty() };
        let grow = if wide != current { seq![StepView::Resize(wide)] } else { Seq::empty() };
        let last = if wide != target { seq![StepView::Resize(target)] } else { Seq::empty() };
        first + grow + seq![StepView::Batch(enables)] + last
    }
}

/// The size of the framebuffer after the first `n` steps.
pub open spec fn size_after(steps: Seq<StepView>, current: Mode, n: int) -> Mode
    decreases n,
{
    if n <= 0 || n > steps.len() {
        current
    } else {
        match steps[n - 1] {
            StepView::Resize(size) => size,
            StepView::Batch(_) => size_after(steps, current, n - 1),
        }
    }
}

proof fn lemma_step_views_push(steps: Seq<Step>, step: Step)
    ensures
        step_views(steps.push(step)) == step_views(steps).push(step@),
{
    assert(step_views(steps.push(step)) =~= step_views(steps).push(step@));
}

/// Orders what a pass found into the steps to send. The first component
/// says whether anything is sent at all.
pub fn commit_steps(disables: Vec<CrtcRequest>, enables: Vec<CrtcRequest>, current: Mode, target: &Mode) -> (r: (
    bool,
    Vec<Step>,
))
    ensures
        r.0 == !unchanged(disables@, enables@, current, *target),
        r.0 == (r.1@.len() > 0),
        step_views(r.1@) == steps_of(disables@, enables@, current, *target),
{
    let mut steps: Vec<Step> = Vec::new();
    assert(step_views(steps@) =~= Seq::empty());
    if disables.len() == 0 && enables.len() == 0 && current == *target {
        return (false, steps);
    }
    let ghost first = if disables@.len() > 0 { seq![StepView::Batch(disables@)] } else { Seq::empty() };
    if disables.len() != 0 {
        proof {
            lemma_step_views_push(steps@, Step::Batch(disables));
        }
        steps.push(Step::Batch(disables));
    }
    assert(step_views(steps@) =~= first);
    let wide = current.union(target);
    let ghost grow = if wide != current { seq![StepView::Resize(wide)] } else { Seq::empty() };
    if current != wide {
        proof {
            lemma_step_views_push(steps@, Step::Resize(wide));
        }
        steps.push(Step::Resize(wide));
    }
    assert(step_views(steps@) =~= first + grow);
    proof {
        lemma_step_views_push(steps@, Step::Batch(enables));
    }
    steps.push(Step::Batch(enables));
    assert(step_views(steps@) =~= first + grow + seq![StepView::Batch(enables@)]);
    let ghost last = if wide != *target { seq![StepView::Resize(*target)] } else { Seq::empty() };
    if wide != *target {
        proof {
            lemma_step_views_push(steps@, Step::Resize(*target));
        }
        steps.push(Step::Resize(*target));
    }
    assert(step_views(steps@) =~= first + grow + seq![StepView::Batch(enables@)] + last);
    (true, steps)
}

/// The framebuffer is never shrunk before the controllers are reconfigured:
/// up to the batch of reconfigurations its size covers the size it had, at
/// that batch it covers the target size too, at most one step follows the
/// batch, and after the last step the framebuffer has the target size.
pub proof fn lemma_resize_order(
    disables: Seq<CrtcRequest>,
    enables: Seq<CrtcRequest>,
    current: Mode,
    target: Mode,
)
    requires
        !unchanged(disables, enables, current, target),
    ensures
        ({
            let steps = steps_of(disables, enables, current, target);
            let e = steps_before_enable(disables, current, target);
            &&& 0 <= e < steps.len() <= e + 2
            &&& steps[e] == StepView::Batch(enables)
            &&& forall|n: int| 0 <= n <= e ==> (#[trigger] size_after(steps, current, n)).covers(current)
            &&& size_after(steps, current, e + 1) == current.union_spec(target)
            &&& size_after(steps, current, e + 1).covers(target)
            &&& size_after(steps, current, steps.len() as int) == target
        }),
{
    let steps = steps_of(disables, enables, current, target);
    let e = steps_before_enable(disables, current, target);
    let wide = current.union_spec(target);
    assert(size_after(steps, current, 0) == current);
    assert(size_after(steps, current, 1) == if e >= 1 && disables.len() == 0 { wide } else { current });
    if e >= 1 {
        assert(size_after(steps, current, 2) == if wide != current { wide } else { current });
    }
    if e == 2 {
        assert(size_after(steps, current, 3) == wide);
    }
    assert(size_after(steps, current, e + 1) == wide);
    if steps.len() == e + 2 {
        assert(steps[e + 1] == StepView::Resize(target));
    }
    assert forall|n: int| 0 <= n <= e implies (#[trigger] size_after(steps, current, n)).covers(current) by {
        assert(n == 0 || n == 1 || n == 2);
    }
}

} // verus!
