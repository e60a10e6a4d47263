//! Execution of an ordered plan of steps with validation checkpoints,
//! nested corrective actions, and two control-flow escapes.
//!
//! The engine is a state machine driven from outside: the caller asks it
//! what to do next (perform a primitive action, ask a validation
//! question, or nothing) and reports back what happened. All decisions —
//! which step runs next, how corrective subtrees nest, and how the two
//! escape signals unwind — are made here. The caller performs only the
//! I/O.
//!
//! The two escapes are step variants, not errors: a stop-client step
//! abandons the remainder of the current client's steps and resumes at
//! the next client boundary; an abort step terminates the whole run.
//! Any reported step failure stops the run (fail-fast).

use vstd::prelude::*;

verus! {

/// One primitive or control step of a plan. Client boundaries are
/// marked by `BeginClient` sentinels in a flat list, not by nesting.
pub enum Action {
    BeginClient { row: usize },
    VisitUrl { url: String },
    TypeText { text: String, per_char_delay_ms: u64 },
    TypeKey { key: String },
    TypeOtp { uid: String },
    ResetZoom,
    Wait { secs: u64 },
    SubmitForm,
    ClickStage { name: String },
    ClickCheckbox { name: String },
    ClickOptionsMenu { name: String },
    ClickTemplate,
    ClickCreate,
    ClickInvoiceAmount,
    ClickByDom { prompt: String, double: Option<bool> },
    ClickByVision { prompt: String, double: Option<bool> },
    UpdateRecordCell { row: usize, col: usize, value: String, success: bool, yellow: bool },
    StopClient,
    Abort,
}

/// A yes/no question to ask against a post-step screenshot, with an
/// optional list of corrective steps per answer.
pub struct Validation {
    pub question: String,
    pub on_true: Option<Vec<PlanStep>>,
    pub on_false: Option<Vec<PlanStep>>,
}

/// A plan step: an action, optionally followed by a validation
/// checkpoint whose corrective steps run recursively under the same
/// rules.
pub struct PlanStep {
    pub action: Action,
    pub validation: Option<Validation>,
}

impl Action {
    /// A client-boundary marker: executed as a no-op.
    pub open spec fn is_sentinel(self) -> bool {
        self is BeginClient
    }

    /// One of the two control-flow escapes.
    pub open spec fn is_signal(self) -> bool {
        self is StopClient || self is Abort
    }

    /// A step the caller must perform.
    pub open spec fn is_primitive(self) -> bool {
        !self.is_sentinel() && !self.is_signal()
    }
}

/// The corrective step list a step defines for the given answer, if any.
pub open spec fn corrective_of(s: PlanStep, answer: bool) -> Option<Seq<PlanStep>> {
    match s.validation {
        Option::None => Option::None,
        Option::Some(v) => if answer {
            match v.on_true {
                Option::None => Option::None,
                Option::Some(l) => Option::Some(l@),
            }
        } else {
            match v.on_false {
                Option::None => Option::None,
                Option::Some(l) => Option::Some(l@),
            }
        },
    }
}

/// A position in the corrective-step tree: within the enclosing list,
/// the step at `step` whose corrective list for `answer` was entered,
/// and the cursor `idx` inside that list.
#[derive(Debug, Clone, Copy, PartialEq, Eq, Structural)]
pub struct FrameRef {
    pub step: usize,
    pub answer: bool,
    pub idx: usize,
}

/// How a finished run ended.
#[derive(Debug, Clone, Copy, PartialEq, Eq, Structural)]
pub enum RunOutcome {
    /// Every step ran to the end of the plan.
    Completed,
    /// An abort step was reached: the whole run terminates.
    Aborted,
    /// A primitive step was reported failed: fail-fast.
    StepFailed,
}

/// Where the engine stands between calls.
#[derive(Debug, Clone, Copy, PartialEq, Eq, Structural)]
pub enum EngineStatus {
    /// Ready to look at the next step.
    Ready,
    /// A primitive step was handed out; awaiting its outcome.
    AwaitStep,
    /// A validation question was handed out; awaiting the answer.
    AwaitAnswer,
    /// The run is over.
    Done(RunOutcome),
}

/// What the caller reports into `advance`.
#[derive(Debug, Clone, Copy, PartialEq, Eq, Structural)]
pub enum Event {
    /// Nothing to report; let the engine take its next internal step.
    Tick,
    /// The handed-out primitive step completed.
    StepOk,
    /// The handed-out primitive step failed.
    StepErr,
    /// The validation question was answered.
    Answer(bool),
    /// The validation question could not be answered; the run goes on.
    AnswerErr,
}

/// What the caller must do next.
#[derive(Debug, Clone, Copy, PartialEq, Eq, Structural)]
pub enum Directive {
    /// Perform the current step's action, then report StepOk/StepErr.
    Perform,
    /// Ask the current step's validation question, then report the
    /// answer (or AnswerErr).
    Ask,
    /// Nothing to do outside; call `advance` again with Tick.
    Proceed,
    /// The run is over; read the outcome.
    Finished,
}

/// The engine's state as mathematical values.
pub struct EngineModel {
    pub plan: Seq<PlanStep>,
    pub top_idx: int,
    pub frames: Seq<FrameRef>,
    pub status: EngineStatus,
}

/// The step list a stack of frames leads to, starting from the plan.
pub open spec fn level_list(plan: Seq<PlanStep>, frames: Seq<FrameRef>) -> Seq<PlanStep>
    decreases frames.len(),
{
    if frames.len() == 0 {
        plan
    } else {
        let l = level_list(plan, frames.drop_last());
        let f = frames.last();
        if f.step < l.len() && corrective_of(l[f.step as int], f.answer) is Some {
            corrective_of(l[f.step as int], f.answer).unwrap()
        } else {
            Seq::empty()
        }
    }
}

/// Every frame points at a real step of its level whose corrective list
/// for the recorded answer exists, with a cursor inside bounds.
pub open spec fn frames_valid(plan: Seq<PlanStep>, frames: Seq<FrameRef>) -> bool
    decreases frames.len(),
{
    if frames.len() == 0 {
        true
    } else {
        let pre = frames.drop_last();
        let l = level_list(plan, pre);
        let f = frames.last();
        frames_valid(plan, pre) && f.step < l.len() && corrective_of(l[f.step as int], f.answer)
            is Some && f.idx <= corrective_of(l[f.step as int], f.answer).unwrap().len()
    }
}

impl EngineModel {
    /// The step list the cursor currently walks.
    pub open spec fn cur_list(self) -> Seq<PlanStep> {
        level_list(self.plan, self.frames)
    }

    /// The cursor within that list.
    pub open spec fn cur_idx(self) -> int {
        if self.frames.len() == 0 {
            self.top_idx
        } else {
            self.frames.last().idx as int
        }
    }

    /// The step under the cursor.
    pub open spec fn cur_step(self) -> PlanStep {
        self.cur_list()[self.cur_idx()]
    }

    /// Well-formedness: cursors in bounds, frames valid, and — while a
    /// step or answer is pending — a real primitive step (with a
    /// validation, when an answer is pending) under the cursor.
    pub open spec fn wf(self) -> bool {
        &&& 0 <= self.top_idx <= self.plan.len()
        &&& frames_valid(self.plan, self.frames)
        &&& (self.status is AwaitStep || self.status is AwaitAnswer) ==> {
            &&& 0 <= self.cur_idx() < self.cur_list().len()
            &&& self.cur_step().action.is_primitive()
        }
        &&& self.status is AwaitAnswer ==> self.cur_step().validation is Some
    }

    /// The model with the cursor of the deepest level moved one step
    /// forward.
    pub open spec fn with_cursor_advanced(self) -> EngineModel {
        if self.frames.len() == 0 {
            EngineModel { top_idx: self.top_idx + 1, ..self }
        } else {
            let f = self.frames.last();
            EngineModel {
                frames: self.frames.update(
                    self.frames.len() - 1,
                    FrameRef { idx: (f.idx + 1) as usize, ..f },
                ),
                ..self
            }
        }
    }

    /// The model with the given status.
    pub open spec fn with_status(self, st: EngineStatus) -> EngineModel {
        EngineModel { status: st, ..self }
    }
}

/// Which events a status accepts.
pub open spec fn accepts(st: EngineStatus, ev: Event) -> bool {
    match st {
        EngineStatus::Ready => ev is Tick,
        EngineStatus::AwaitStep => ev is StepOk || ev is StepErr,
        EngineStatus::AwaitAnswer => ev is Answer || ev is AnswerErr,
        EngineStatus::Done(_) => true,
    }
}

/// The index of the next client boundary at or after `i`, or the plan's
/// length when none remains.
pub open spec fn next_begin_from(plan: Seq<PlanStep>, i: int) -> int
    decreases plan.len() - i,
{
    if i < 0 {
        next_begin_from(plan, 0)
    } else if i >= plan.len() {
        plan.len() as int
    } else if plan[i].action is BeginClient {
        i
    } else {
        next_begin_from(plan, i + 1)
    }
}

/// The one transition of the engine: from a state and a reported event
/// to the next state and what the caller must do. This is the whole
/// control-flow policy of the run.
pub open spec fn spec_advance(pre: EngineModel, ev: Event) -> (EngineModel, Directive) {
    if pre.status is Done {
        // A finished run never hands out further work, at any level.
        (pre, Directive::Finished)
    } else if pre.status is Ready {
        let list = pre.cur_list();
        let idx = pre.cur_idx();
        if idx >= list.len() {
            if pre.frames.len() > 0 {
                // This corrective list is exhausted: resume its parent.
                (EngineModel { frames: pre.frames.drop_last(), ..pre }, Directive::Proceed)
            } else {
                // The plan is exhausted: the run completed.
                (pre.with_status(EngineStatus::Done(RunOutcome::Completed)), Directive::Finished)
            }
        } else {
            let s = list[idx];
            if s.action is BeginClient {
                // A sentinel: a plain marker, executed as a no-op.
                (pre.with_cursor_advanced(), Directive::Proceed)
            } else if s.action is StopClient {
                // Abandon the rest of this client: discard every nested
                // corrective frame and skip to the next client boundary.
                let from = if pre.frames.len() == 0 {
                    idx + 1
                } else {
                    pre.top_idx
                };
                (
                    EngineModel {
                        top_idx: next_begin_from(pre.plan, from),
                        frames: Seq::empty(),
                        ..pre
                    },
                    Directive::Proceed,
                )
            } else if s.action is Abort {
                // Terminate the whole run, from any nesting depth.
                (pre.with_status(EngineStatus::Done(RunOutcome::Aborted)), Directive::Finished)
            } else {
                (pre.with_status(EngineStatus::AwaitStep), Directive::Perform)
            }
        }
    } else if pre.status is AwaitStep {
        if ev is StepOk {
            if pre.cur_step().validation is Some {
                (pre.with_status(EngineStatus::AwaitAnswer), Directive::Ask)
            } else {
                (pre.with_cursor_advanced().with_status(EngineStatus::Ready), Directive::Proceed)
            }
        } else {
            // Fail-fast: any reported failure ends the run.
            (pre.with_status(EngineStatus::Done(RunOutcome::StepFailed)), Directive::Finished)
        }
    } else {
        // AwaitAnswer
        match ev {
            Event::Answer(b) => {
                if corrective_of(pre.cur_step(), b) is Some {
                    // Enter the corrective subtree; the cursor is
                    // advanced first so that finishing the subtree
                    // resumes at the next sibling.
                    let stepped = pre.with_cursor_advanced();
                    (
                        EngineModel {
                            frames: stepped.frames.push(
                                FrameRef { step: idx_of(pre), answer: b, idx: 0 },
                            ),
                            status: EngineStatus::Ready,
                            ..stepped
                        },
                        Directive::Proceed,
                    )
                } else {
                    (
                        pre.with_cursor_advanced().with_status(EngineStatus::Ready),
                        Directive::Proceed,
                    )
                }
            },
            _ => {
                // The question could not be answered: log-and-continue.
                (pre.with_cursor_advanced().with_status(EngineStatus::Ready), Directive::Proceed)
            },
        }
    }
}

/// The cursor as a frame-step index.
pub open spec fn idx_of(m: EngineModel) -> usize {
    if m.frames.len() == 0 {
        m.top_idx as usize
    } else {
        m.frames.last().idx
    }
}

/// Replacing the last frame's cursor changes neither the navigation nor
/// the frames' validity, as long as the new cursor stays in bounds.
proof fn lemma_frames_update_last(plan: Seq<PlanStep>, frames: Seq<FrameRef>, f2: FrameRef)
    requires
        frames.len() > 0,
        frames_valid(plan, frames),
        f2.step == frames.last().step,
        f2.answer == frames.last().answer,
        f2.idx <= corrective_of(
            level_list(plan, frames.drop_last())[frames.last().step as int],
            frames.last().answer,
        ).unwrap().len(),
    ensures
        frames_valid(plan, frames.update(frames.len() - 1, f2)),
        level_list(plan, frames.update(frames.len() - 1, f2)) == level_list(plan, frames),
{
    let u = frames.update(frames.len() - 1, f2);
    assert(u.drop_last() =~= frames.drop_last());
    assert(u.last() == f2);
}

/// Advancing the cursor past the current step keeps the state navigable
/// and leaves everything but the cursor alone.
proof fn lemma_cursor_advance(m: EngineModel)
    requires
        0 <= m.top_idx <= m.plan.len(),
        frames_valid(m.plan, m.frames),
        0 <= m.cur_idx() < m.cur_list().len(),
        m.cur_idx() < usize::MAX,
    ensures
        frames_valid(m.plan, m.with_cursor_advanced().frames),
        level_list(m.plan, m.with_cursor_advanced().frames) == m.cur_list(),
        m.with_cursor_advanced().cur_idx() == m.cur_idx() + 1,
        m.with_cursor_advanced().plan == m.plan,
        0 <= m.with_cursor_advanced().top_idx <= m.plan.len(),
{
    if m.frames.len() > 0 {
        let f = m.frames.last();
        let f2 = FrameRef { idx: (f.idx + 1) as usize, ..f };
        lemma_frames_update_last(m.plan, m.frames, f2);
    }
}

/// The next client boundary lies between the scan start and the plan's
/// end, and is a boundary if it is a step at all.
pub proof fn lemma_next_begin_bounds(plan: Seq<PlanStep>, i: int)
    requires
        0 <= i <= plan.len(),
    ensures
        i <= next_begin_from(plan, i) <= plan.len(),
        next_begin_from(plan, i) < plan.len() ==> plan[next_begin_from(plan, i)].action
            is BeginClient,
    decreases plan.len() - i,
{
    if i < plan.len() && !(plan[i].action is BeginClient) {
        lemma_next_begin_bounds(plan, i + 1);
    }
}

/// The step engine: a plan, a cursor into it, a stack of corrective
/// frames, and a status. Drive it by calling `advance` with what
/// happened and doing what the returned directive says.
pub struct StepEngine {
    plan: Vec<PlanStep>,
    top_idx: usize,
    frames: Vec<FrameRef>,
    status: EngineStatus,
}

impl StepEngine {
    /// The engine's state as mathematical values.
    pub closed spec fn model(self) -> EngineModel {
        EngineModel {
            plan: self.plan@,
            top_idx: self.top_idx as int,
            frames: self.frames@,
            status: self.status,
        }
    }

    /// A fresh engine at the start of the given plan.
    pub fn new(plan: Vec<PlanStep>) -> (r: Self)
        ensures
            r.model().plan == plan@,
            r.model().top_idx == 0,
            r.model().frames == Seq::<FrameRef>::empty(),
            r.model().status == EngineStatus::Ready,
            r.model().wf(),
    {
        let r = StepEngine { plan, top_idx: 0, frames: Vec::new(), status: EngineStatus::Ready };
        proof {
            assert(r.model().frames =~= Seq::<FrameRef>::empty());
        }
        r
    }

    /// The engine's status.
    pub fn status(&self) -> (r: EngineStatus)
        ensures
            r == self.model().status,
    {
        self.status
    }

    /// The outcome of a finished run.
    pub fn outcome(&self) -> (r: Option<RunOutcome>)
        ensures
            r == match self.model().status {
                EngineStatus::Done(o) => Some(o),
                _ => None::<RunOutcome>,
            },
    {
        match self.status {
            EngineStatus::Done(o) => Some(o),
            _ => None,
        }
    }

    /// The step list the cursor currently walks, found by following the
    /// corrective frames down from the plan.
    fn cur_list(&self) -> (r: &Vec<PlanStep>)
        requires
            frames_valid(self.model().plan, self.model().frames),
        ensures
            r@ == self.model().cur_list(),
    {
        let mut cur: &Vec<PlanStep> = &self.plan;
        let mut k: usize = 0;
        while k < self.frames.len()
            invariant
                k <= self.frames@.len(),
                frames_valid(self.plan@, self.frames@),
                cur@ == level_list(self.plan@, self.frames@.take(k as int)),
            decreases self.frames@.len() - k,
        {
            proof {
                lemma_frames_valid_prefix(self.plan@, self.frames@, k + 1);
                assert(self.frames@.take(k + 1).drop_last() =~= self.frames@.take(k as int));
                assert(self.frames@.take(k + 1).last() == self.frames@[k as int]);
            }
            let f = self.frames[k];
            let s = &cur[f.step];
            let v = s.validation.as_ref().unwrap();
            cur = if f.answer {
                v.on_true.as_ref().unwrap()
            } else {
                v.on_false.as_ref().unwrap()
            };
            k += 1;
        }
        proof {
            assert(self.frames@.take(self.frames@.len() as int) =~= self.frames@);
        }
        cur
    }

    /// The cursor within the current list.
    fn cursor(&self) -> (r: usize)
        ensures
            r as int == self.model().cur_idx(),
    {
        if self.frames.len() == 0 {
            self.top_idx
        } else {
            self.frames[self.frames.len() - 1].idx
        }
    }

    /// Move the cursor of the deepest level one step forward.
    fn advance_cursor(&mut self)
        requires
            0 <= old(self).model().top_idx <= old(self).model().plan.len(),
            frames_valid(old(self).model().plan, old(self).model().frames),
            0 <= old(self).model().cur_idx() < old(self).model().cur_list().len(),
            old(self).model().cur_idx() < usize::MAX,
        ensures
            final (self).model() == old(self).model().with_cursor_advanced(),
            frames_valid(final (self).model().plan, final (self).model().frames),
            level_list(final (self).model().plan, final (self).model().frames) == old(
                self,
            ).model().cur_list(),
            final (self).model().cur_idx() == old(self).model().cur_idx() + 1,
    {
        proof {
            lemma_cursor_advance(old(self).model());
        }
        if self.frames.len() == 0 {
            self.top_idx = self.top_idx + 1;
        } else {
            let f = self.frames.pop().unwrap();
            self.frames.push(FrameRef { idx: f.idx + 1, ..f });
            proof {
                assert(self.model().frames =~= old(self).model().with_cursor_advanced().frames);
            }
        }
    }

    /// Scan forward in the plan for the next client boundary.
    fn next_begin_index(&self, from: usize) -> (r: usize)
        requires
            from <= self.model().plan.len(),
        ensures
            r as int == next_begin_from(self.model().plan, from as int),
    {
        let mut j = from;
        while j < self.plan.len()
            invariant
                from <= j <= self.plan@.len(),
                next_begin_from(self.plan@, from as int) == next_begin_from(self.plan@, j as int),
                forall|k: int| from <= k < j ==> !((#[trigger] self.plan@[k].action) is BeginClient),
            decreases self.plan@.len() - j,
        {
            let is_begin = matches!(self.plan[j].action, Action::BeginClient { .. });
            if is_begin {
                return j;
            }
            j += 1;
        }
        j
    }

    /// The step the engine is waiting on, while one is pending. The
    /// caller reads the action to perform, or the validation question
    /// to ask, from it.
    pub fn current_step(&self) -> (r: Option<&PlanStep>)
        requires
            self.model().wf(),
        ensures
            r is Some <==> (self.model().status is AwaitStep || self.model().status
                is AwaitAnswer),
            r matches Some(s) ==> *s == self.model().cur_step(),
    {
        match self.status {
            EngineStatus::AwaitStep | EngineStatus::AwaitAnswer => {
                let idx = self.cursor();
                let list = self.cur_list();
                Some(&list[idx])
            },
            _ => None,
        }
    }

    /// Take one transition: report what happened (`ev`) and get back
    /// what to do next. The whole control-flow policy — sentinels,
    /// nested corrective subtrees, the stop-client and abort escapes,
    /// and fail-fast on errors — is the transition `spec_advance`.
    pub fn advance(&mut self, ev: Event) -> (d: Directive)
        requires
            old(self).model().wf(),
            accepts(old(self).model().status, ev),
        ensures
            final (self).model() == spec_advance(old(self).model(), ev).0,
            d == spec_advance(old(self).model(), ev).1,
            final (self).model().wf(),
    {
        let ghost pre = self.model();
        match self.status {
            EngineStatus::Done(_) => Directive::Finished,
            EngineStatus::Ready => {
                let depth = self.frames.len();
                let idx = self.cursor();
                let mut is_begin = false;
                let mut is_stop = false;
                let mut is_abort = false;
                let n: usize;
                {
                    let list = self.cur_list();
                    n = list.len();
                    if idx < n {
                        let a = &list[idx].action;
                        is_begin = matches!(a, Action::BeginClient { .. });
                        is_stop = matches!(a, Action::StopClient);
                        is_abort = matches!(a, Action::Abort);
                    }
                }
                if idx >= n {
                    if depth > 0 {
                        let _ = self.frames.pop();
                        proof {
                            assert(self.model().frames =~= pre.frames.drop_last());
                        }
                        Directive::Proceed
                    } else {
                        self.status = EngineStatus::Done(RunOutcome::Completed);
                        Directive::Finished
                    }
                } else if is_begin {
                    self.advance_cursor();
                    Directive::Proceed
                } else if is_stop {
                    let from = if depth == 0 {
                        idx + 1
                    } else {
                        self.top_idx
                    };
                    proof {
                        lemma_next_begin_bounds(pre.plan, from as int);
                    }
                    let nb = self.next_begin_index(from);
                    self.top_idx = nb;
                    self.frames.clear();
                    proof {
                        assert(self.model().frames =~= Seq::<FrameRef>::empty());
                    }
                    Directive::Proceed
                } else if is_abort {
                    self.status = EngineStatus::Done(RunOutcome::Aborted);
                    Directive::Finished
                } else {
                    self.status = EngineStatus::AwaitStep;
                    Directive::Perform
                }
            },
            EngineStatus::AwaitStep => {
                match ev {
                    Event::StepOk => {
                        let idx = self.cursor();
                        let has_v: bool;
                        {
                            let list = self.cur_list();
                            let n = list.len();
                            assert(idx < n);
                            has_v = list[idx].validation.is_some();
                        }
                        if has_v {
                            self.status = EngineStatus::AwaitAnswer;
                            Directive::Ask
                        } else {
                            self.advance_cursor();
                            self.status = EngineStatus::Ready;
                            Directive::Proceed
                        }
                    },
                    _ => {
                        self.status = EngineStatus::Done(RunOutcome::StepFailed);
                        Directive::Finished
                    },
                }
            },
            EngineStatus::AwaitAnswer => {
                match ev {
                    Event::Answer(b) => {
                        let idx = self.cursor();
                        let has_c: bool;
                        {
                            let list = self.cur_list();
                            let n = list.len();
                            assert(idx < n);
                            let v = list[idx].validation.as_ref().unwrap();
                            has_c = if b {
                                v.on_true.is_some()
                            } else {
                                v.on_false.is_some()
                            };
                            proof {
                                assert(list@[idx as int] == pre.cur_step());
                                assert(has_c == (corrective_of(pre.cur_step(), b) is Some));
                            }
                        }
                        if has_c {
                            let fr = FrameRef { step: idx, answer: b, idx: 0 };
                            proof {
                                lemma_cursor_advance(pre);
                            }
                            self.advance_cursor();
                            self.frames.push(fr);
                            self.status = EngineStatus::Ready;
                            proof {
                                let stepped = pre.with_cursor_advanced();
                                let pushed = self.model().frames;
                                assert(pushed =~= stepped.frames.push(fr));
                                assert(pushed.drop_last() =~= stepped.frames);
                                assert(pushed.last() == fr);
                                assert(level_list(pre.plan, stepped.frames) == pre.cur_list());
                                assert(fr.step < pre.cur_list().len());
                                assert(corrective_of(pre.cur_list()[fr.step as int], fr.answer)
                                    is Some);
                                assert(frames_valid(self.model().plan, pushed));
                            }
                            Directive::Proceed
                        } else {
                            self.advance_cursor();
                            self.status = EngineStatus::Ready;
                            Directive::Proceed
                        }
                    },
                    _ => {
                        let idx = self.cursor();
                        {
                            let list = self.cur_list();
                            let n = list.len();
                            assert(idx < n);
                        }
                        self.advance_cursor();
                        self.status = EngineStatus::Ready;
                        Directive::Proceed
                    },
                }
            },
        }
    }
}

/// A stop-client step, reached at any nesting depth, discards every
/// nested corrective frame and moves the top-level cursor exactly to
/// the next client boundary (or the end of the plan): no sibling or
/// parent-level step in between is ever handed out.
pub proof fn lemma_stop_client_unwinds(m: EngineModel)
    requires
        m.wf(),
        m.status is Ready,
        0 <= m.cur_idx() < m.cur_list().len(),
        m.cur_step().action is StopClient,
    ensures
        spec_advance(m, Event::Tick).0.frames.len() == 0,
        spec_advance(m, Event::Tick).0.top_idx == next_begin_from(
            m.plan,
            if m.frames.len() == 0 {
                m.cur_idx() + 1
            } else {
                m.top_idx
            },
        ),
        spec_advance(m, Event::Tick).0.top_idx < m.plan.len() ==> m.plan[spec_advance(
            m,
            Event::Tick,
        ).0.top_idx].action is BeginClient,
        spec_advance(m, Event::Tick).0.status is Ready,
        spec_advance(m, Event::Tick).1 == Directive::Proceed,
{
    let from = if m.frames.len() == 0 {
        m.cur_idx() + 1
    } else {
        m.top_idx
    };
    lemma_next_begin_bounds(m.plan, from);
}

/// An abort step terminates the run from any nesting depth, and a
/// finished run absorbs every further event without handing out work:
/// after an abort, no step at any level is performed again.
pub proof fn lemma_abort_terminates(m: EngineModel, ev: Event)
    requires
        m.wf(),
        m.status is Ready,
        0 <= m.cur_idx() < m.cur_list().len(),
        m.cur_step().action is Abort,
    ensures
        spec_advance(m, Event::Tick).0.status == EngineStatus::Done(RunOutcome::Aborted),
        spec_advance(m, Event::Tick).1 == Directive::Finished,
        spec_advance(spec_advance(m, Event::Tick).0, ev) == (
            spec_advance(m, Event::Tick).0,
            Directive::Finished,
        ),
{
}

/// Validity of the frames is inherited by every prefix of them.
proof fn lemma_frames_valid_prefix(plan: Seq<PlanStep>, frames: Seq<FrameRef>, k: int)
    requires
        frames_valid(plan, frames),
        0 <= k <= frames.len(),
    ensures
        frames_valid(plan, frames.take(k)),
    decreases frames.len(),
{
    if k == frames.len() {
        assert(frames.take(k) =~= frames);
    } else {
        assert(frames.drop_last() =~= frames.take(frames.len() - 1));
        lemma_frames_valid_prefix(plan, frames.take(frames.len() - 1), k);
        assert(frames.take(frames.len() - 1).take(k) =~= frames.take(k));
    }
}

} // verus!
