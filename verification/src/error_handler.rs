//! Furthest-failure tracking for error reporting.
//!
//! An [`ErrorHandler`] observes a parse: every attempted rule opens a slice at its start
//! position ([`ErrorHandler::register_start`]), the furthest position read inside the rule
//! is recorded as a watermark, and the rule is closed either as a success or as a labelled
//! failure. [`MultiErrorHandler`] keeps the labels of the failures whose slice lies furthest
//! into the input; [`EmptyErrorHandler`] ignores everything and is used on the fast path.
use vstd::prelude::*;
use crate::error::{FurthestFailError, FurthestFailView, ParserErrorAnnotations};

verus! {

broadcast use vstd::seq::group_seq_axioms;

/// Model of an error handler's state.
pub enum HandlerModel {
    /// An [`EmptyErrorHandler`].
    Empty,
    /// A [`MultiErrorHandler`] in this state.
    Multi(MultiErrorHandlerModel),
}

impl HandlerModel {
    /// State and handle after a rule starts at `pos`.
    pub open spec fn start(self, pos: usize) -> (HandlerModel, MultiErrorHandlerIndex) {
        match self {
            HandlerModel::Empty => (HandlerModel::Empty, MultiErrorHandlerIndex { error_idx: 0, slice_idx: 0 }),
            HandlerModel::Multi(m) => (HandlerModel::Multi(m.start(pos).0), m.start(pos).1),
        }
    }

    /// State after a watermark at `pos`: the innermost open slice reaches at least `pos`.
    pub open spec fn watermark(self, pos: usize) -> HandlerModel {
        match self {
            HandlerModel::Empty => HandlerModel::Empty,
            HandlerModel::Multi(m) => HandlerModel::Multi(m.watermark(pos)),
        }
    }

    /// Whether closing the rule `idx` as a success is defined (the handler panics otherwise):
    /// only the innermost open rule can be closed.
    pub open spec fn success_ok(self, idx: MultiErrorHandlerIndex) -> bool {
        match self {
            HandlerModel::Empty => true,
            HandlerModel::Multi(m) => m.success_ok(idx),
        }
    }

    /// State after closing the rule `idx` as a success.
    pub open spec fn success(self, idx: MultiErrorHandlerIndex) -> HandlerModel {
        match self {
            HandlerModel::Empty => HandlerModel::Empty,
            HandlerModel::Multi(m) => HandlerModel::Multi(m.success(idx)),
        }
    }

    /// Whether closing the rule `idx` as a failure labelled `label` is defined (the handler
    /// panics otherwise): the rule must be the innermost open one, and a failure exactly as
    /// good as the best one must still have its entry.
    pub open spec fn error_ok(self, label: Seq<char>, idx: MultiErrorHandlerIndex, match_start: usize) -> bool {
        match self {
            HandlerModel::Empty => true,
            HandlerModel::Multi(m) => m.error_ok(label, idx, match_start),
        }
    }

    /// State after closing the rule `idx` as a failure labelled `label`.
    pub open spec fn error(self, label: Seq<char>, idx: MultiErrorHandlerIndex, match_start: usize) -> HandlerModel {
        match self {
            HandlerModel::Empty => HandlerModel::Empty,
            HandlerModel::Multi(m) => HandlerModel::Multi(m.error(label, idx, match_start)),
        }
    }

    /// Whether the handler collects errors.
    pub open spec fn is_real(self) -> bool {
        self is Multi
    }
}

/// Observer of rule starts, watermarks, successes and labelled failures.
///
/// Each exec method is specified by a transition of [`HandlerModel`]; a transition whose
/// `_ok` predicate is false is one on which the handler panics.
pub trait ErrorHandler: Sized {
    /// The handler's state.
    spec fn model(&self) -> HandlerModel;

    /// The state of a handler created for a parse that starts at `start_pos`.
    spec fn initial_model(start_pos: usize) -> HandlerModel;

    /// A handler for a parse that starts at `start_pos`.
    fn new(start_pos: usize) -> (h: Self)
        ensures
            h.model() == Self::initial_model(start_pos),
    ;

    /// A rule starts at `pos`.
    fn register_start(&mut self, pos: usize) -> (idx: MultiErrorHandlerIndex)
        ensures
            (final(self).model(), idx) == old(self).model().start(pos),
    ;

    /// The rule `idx` failed; `label` names what was expected.
    fn register_error(&mut self, label: String, idx: MultiErrorHandlerIndex, match_start: usize)
        requires
            old(self).model().error_ok(label@, idx, match_start),
        ensures
            final(self).model() == old(self).model().error(label@, idx, match_start),
    ;

    /// The rule `idx` ended as a success.
    fn register_success(&mut self, idx: MultiErrorHandlerIndex)
        requires
            old(self).model().success_ok(idx),
        ensures
            final(self).model() == old(self).model().success(idx),
    ;

    /// The innermost open rule has read up to `pos`.
    fn register_watermark(&mut self, pos: usize)
        ensures
            final(self).model() == old(self).model().watermark(pos),
    ;

    /// Whether this handler collects errors.
    fn is_real(&self) -> (b: bool)
        ensures
            b == self.model().is_real(),
    ;
}

/// Handler that records nothing.
pub struct EmptyErrorHandler;

impl ErrorHandler for EmptyErrorHandler {
    open spec fn model(&self) -> HandlerModel {
        HandlerModel::Empty
    }

    open spec fn initial_model(start_pos: usize) -> HandlerModel {
        HandlerModel::Empty
    }

    fn new(start_pos: usize) -> (h: Self)
        ensures
            h.model() == Self::initial_model(start_pos),
    {
        EmptyErrorHandler
    }

    fn register_start(&mut self, pos: usize) -> (idx: MultiErrorHandlerIndex) {
        MultiErrorHandlerIndex { error_idx: 0, slice_idx: 0 }
    }

    fn register_error(&mut self, label: String, idx: MultiErrorHandlerIndex, match_start: usize) {
    }

    fn register_success(&mut self, idx: MultiErrorHandlerIndex) {
    }

    fn register_watermark(&mut self, pos: usize) {
    }

    fn is_real(&self) -> (b: bool) {
        false
    }
}

/// Handle of one open rule in a [`MultiErrorHandler`].
#[derive(Clone, Copy, PartialEq, Eq, Structural)]
pub struct MultiErrorHandlerIndex {
    /// Position of this rule's entry in the error list when it started.
    pub error_idx: usize,
    /// Position of this rule's slice in the slice stack.
    pub slice_idx: usize,
}

/// Model of a [`MultiErrorHandler`].
pub struct MultiErrorHandlerModel {
    /// The furthest failing slice seen so far.
    pub best: (usize, usize),
    /// Open slices; the first one belongs to the whole parse.
    pub slices: Seq<(usize, usize)>,
    /// Labels of the failures recorded at `best` (`None` for placeholders).
    pub errors: Seq<Option<Seq<char>>>,
    /// Indices into `errors` of failures that occurred at their match start.
    pub at_start: Seq<usize>,
}

/// Handler that keeps the labels of the furthest failures.
pub struct MultiErrorHandler {
    best_failure_slice: (usize, usize),
    slice_stack: Vec<(usize, usize)>,
    errors: Vec<Option<String>>,
    errors_at_match_start: Vec<usize>,
}

/// The view of an optional label.
pub open spec fn opt_label(o: Option<String>) -> Option<Seq<char>> {
    match o {
        Some(s) => Some(s@),
        None => None,
    }
}

/// The larger of two positions.
pub open spec fn max_pos(a: usize, b: usize) -> usize {
    if a >= b {
        a
    } else {
        b
    }
}

/// Pop the slice on top of `slices` and widen its parent's end to cover it.
pub open spec fn pop_slice(slices: Seq<(usize, usize)>) -> Seq<(usize, usize)> {
    if slices.len() == 0 {
        slices
    } else {
        let top = slices.last();
        let rest = slices.drop_last();
        if rest.len() == 0 {
            rest
        } else {
            rest.update(rest.len() - 1, (rest.last().0, max_pos(rest.last().1, top.1)))
        }
    }
}

/// Drop, from the end of `at_start`, the failures recorded after `e`, clearing their labels.
pub open spec fn clear_after(
    errors: Seq<Option<Seq<char>>>,
    at_start: Seq<usize>,
    e: usize,
) -> (Seq<Option<Seq<char>>>, Seq<usize>)
    decreases at_start.len(),
{
    if at_start.len() > 0 && at_start.last() > e {
        clear_after(errors.update(at_start.last() as int, None), at_start.drop_last(), e)
    } else {
        (errors, at_start)
    }
}

/// A failure slice `f` is worse than the best slice `b`.
pub open spec fn slice_worse(f: (usize, usize), b: (usize, usize)) -> bool {
    f.1 < b.1 || f.0 < b.0
}

/// A failure slice `f` (not worse) is better than the best slice `b`.
pub open spec fn slice_better(f: (usize, usize), b: (usize, usize)) -> bool {
    f.1 > b.1 || f.0 > b.0
}

/// The labels present in `errors`, in order.
pub open spec fn present_labels(errors: Seq<Option<Seq<char>>>) -> Seq<Seq<char>>
    decreases errors.len(),
{
    if errors.len() == 0 {
        Seq::empty()
    } else {
        let rest = present_labels(errors.drop_last());
        match errors.last() {
            Some(l) => rest.push(l),
            None => rest,
        }
    }
}

/// `labels` with repetitions removed, keeping each first occurrence in order.
pub open spec fn dedup_labels(labels: Seq<Seq<char>>) -> Seq<Seq<char>>
    decreases labels.len(),
{
    if labels.len() == 0 {
        Seq::empty()
    } else {
        let rest = dedup_labels(labels.drop_last());
        if rest.contains(labels.last()) {
            rest
        } else {
            rest.push(labels.last())
        }
    }
}

impl MultiErrorHandlerModel {
    /// Internal consistency: every recorded match-start failure indexes `errors`.
    pub open spec fn wf(self) -> bool {
        forall|k: int| 0 <= k < self.at_start.len() ==> #[trigger] self.at_start[k] < self.errors.len()
    }

    /// The span reported by [`MultiErrorHandler::to_parser_error`].
    pub open spec fn report_span(self) -> (usize, usize) {
        if present_labels(self.errors).len() > 0 {
            self.best
        } else if self.slices.len() > 0 {
            self.slices[0]
        } else {
            (0, 0)
        }
    }

    /// The error reported by [`MultiErrorHandler::to_parser_error`].
    pub open spec fn report(self) -> FurthestFailView {
        FurthestFailView {
            span: self.report_span(),
            expected: self.report_expected(),
            notes: Seq::empty(),
            help: Seq::empty(),
            extra_labels: Seq::empty(),
        }
    }

    /// The labels reported by [`MultiErrorHandler::to_parser_error`].
    pub open spec fn report_expected(self) -> Seq<Seq<char>> {
        dedup_labels(present_labels(self.errors))
    }
}

impl View for MultiErrorHandler {
    type V = MultiErrorHandlerModel;

    closed spec fn view(&self) -> MultiErrorHandlerModel {
        MultiErrorHandlerModel {
            best: self.best_failure_slice,
            slices: self.slice_stack@,
            errors: self.errors@.map_values(|o: Option<String>| opt_label(o)),
            at_start: self.errors_at_match_start@,
        }
    }
}


impl MultiErrorHandlerModel {
    /// State of a handler created for a parse that starts at `start_pos`.
    pub open spec fn initial(start_pos: usize) -> MultiErrorHandlerModel {
        MultiErrorHandlerModel {
            best: (0, 0),
            slices: seq![(start_pos, start_pos)],
            errors: Seq::empty(),
            at_start: Seq::empty(),
        }
    }

    /// State and handle after a rule starts at `pos`.
    pub open spec fn start(self, pos: usize) -> (
        MultiErrorHandlerModel,
        MultiErrorHandlerIndex,
    ) {
        (
            MultiErrorHandlerModel {
                errors: self.errors.push(None),
                slices: self.slices.push((pos, pos)),
                ..self
            },
            MultiErrorHandlerIndex { error_idx: self.errors.len() as usize, slice_idx: self.slices.len() as usize },
        )
    }

    /// State after a watermark at `pos`: the innermost open slice reaches at least `pos`.
    pub open spec fn watermark(self, pos: usize) -> MultiErrorHandlerModel {
        if self.slices.len() == 0 {
            self
        } else {
            MultiErrorHandlerModel {
                slices: self.slices.update(
                    self.slices.len() - 1,
                    (self.slices.last().0, max_pos(self.slices.last().1, pos)),
                ),
                ..self
            }
        }
    }

    /// Closing `idx` is defined only for the innermost open rule.
    pub open spec fn success_ok(self, idx: MultiErrorHandlerIndex) -> bool {
        self.slices.len() == idx.slice_idx + 1
    }

    /// State after closing the innermost rule as a success.
    pub open spec fn success(self, idx: MultiErrorHandlerIndex) -> MultiErrorHandlerModel {
        MultiErrorHandlerModel { slices: pop_slice(self.slices), ..self }
    }

    /// Whether closing `idx` as a failure is defined: the rule must be the innermost open one,
    /// and a failure exactly as good as the best one must still have its entry.
    pub open spec fn error_ok(
        self,
        label: Seq<char>,
        idx: MultiErrorHandlerIndex,
        match_start: usize,
    ) -> bool {
        &&& self.wf()
        &&& self.slices.len() == idx.slice_idx + 1
        &&& {
            let f = self.slices[idx.slice_idx as int];
            slice_worse(f, self.best) || slice_better(f, self.best) || idx.error_idx < self.errors.len()
        }
    }

    /// State after closing the innermost rule as a failure labelled `label`: a worse failure
    /// is ignored; a better one replaces all recorded labels; an equal one is added, and the
    /// failures recorded since it started at their own match start are dropped.
    pub open spec fn error(
        self,
        label: Seq<char>,
        idx: MultiErrorHandlerIndex,
        match_start: usize,
    ) -> MultiErrorHandlerModel {
        let f = self.slices[idx.slice_idx as int];
        let popped = MultiErrorHandlerModel { slices: pop_slice(self.slices), ..self };
        if slice_worse(f, self.best) {
            popped
        } else {
            let (errors, at_start, best, e) = if slice_better(f, self.best) {
                (seq![None::<Seq<char>>], Seq::<usize>::empty(), f, 0usize)
            } else {
                (self.errors, self.at_start, self.best, idx.error_idx)
            };
            let (errors2, at_start2) = clear_after(errors, at_start, e);
            let errors3 = errors2.update(e as int, Some(label));
            MultiErrorHandlerModel {
                best,
                slices: popped.slices,
                errors: errors3,
                at_start: if match_start == f.0 {
                    at_start2.push(e)
                } else {
                    at_start2
                },
            }
        }
    }
}

impl ErrorHandler for MultiErrorHandler {
    open spec fn model(&self) -> HandlerModel {
        HandlerModel::Multi(self@)
    }

    open spec fn initial_model(start_pos: usize) -> HandlerModel {
        HandlerModel::Multi(MultiErrorHandlerModel::initial(start_pos))
    }

    fn new(start_pos: usize) -> (h: Self)
        ensures
            h.model() == Self::initial_model(start_pos),
    {
        let mut slice_stack = Vec::new();
        slice_stack.push((start_pos, start_pos));
        let h = MultiErrorHandler {
            best_failure_slice: (0, 0),
            slice_stack,
            errors: Vec::new(),
            errors_at_match_start: Vec::new(),
        };
        proof {
            assert(h@.slices =~= seq![(start_pos, start_pos)]);
            assert(h@.errors =~= Seq::<Option<Seq<char>>>::empty());
            assert(h@.at_start =~= Seq::<usize>::empty());
            assert(h@ == MultiErrorHandlerModel::initial(start_pos));
        }
        h
    }

    fn register_start(&mut self, pos: usize) -> (idx: MultiErrorHandlerIndex) {
        let ghost old_errors = self.errors@;
        self.errors.push(None);
        self.slice_stack.push((pos, pos));
        proof {
            assert(self.errors@.map_values(|o: Option<String>| opt_label(o)) =~= old_errors.map_values(
                |o: Option<String>| opt_label(o),
            ).push(None));
        }
        MultiErrorHandlerIndex { error_idx: self.errors.len() - 1, slice_idx: self.slice_stack.len() - 1 }
    }

    fn register_error(&mut self, label: String, idx: MultiErrorHandlerIndex, match_start: usize) {
        let ghost m0 = self@;
        let failure_slice = self.slice_stack[idx.slice_idx];
        let mut error_idx = idx.error_idx;
        self.register_success(idx);
        if failure_slice.1 < self.best_failure_slice.1 || failure_slice.0 < self.best_failure_slice.0 {
            return;
        }
        if failure_slice.1 > self.best_failure_slice.1 || failure_slice.0 > self.best_failure_slice.0 {
            self.errors_at_match_start.clear();
            self.errors.clear();
            self.best_failure_slice = failure_slice;
            self.errors.push(None);
            error_idx = self.errors.len() - 1;
            proof {
                assert(self@.errors =~= seq![None::<Seq<char>>]);
                assert(self@.at_start =~= Seq::<usize>::empty());
            }
        }
        let ghost e0 = self@.errors;
        let ghost a0 = self@.at_start;
        while self.errors_at_match_start.len() > 0
            && self.errors_at_match_start[self.errors_at_match_start.len() - 1] > error_idx
            invariant
                self@.wf(),
                clear_after(self@.errors, self@.at_start, error_idx) == clear_after(e0, a0, error_idx),
                self@.errors.len() == e0.len(),
                self@.best == (if slice_better(failure_slice, m0.best) { failure_slice } else { m0.best }),
                self@.slices == pop_slice(m0.slices),
                error_idx == (if slice_better(failure_slice, m0.best) { 0 } else { idx.error_idx }),
                error_idx < e0.len(),
            decreases self@.at_start.len(),
        {
            let p = self.errors_at_match_start.pop().unwrap();
            let ghost before = self.errors@;
            self.errors.set(p, None);
            proof {
                assert(self@.errors =~= before.map_values(|o: Option<String>| opt_label(o)).update(
                    p as int,
                    None,
                ));
            }
        }
        let ghost before = self.errors@;
        self.errors.set(error_idx, Some(label));
        proof {
            assert(self@.errors =~= before.map_values(|o: Option<String>| opt_label(o)).update(
                error_idx as int,
                Some(label@),
            ));
        }
        if match_start == failure_slice.0 {
            self.errors_at_match_start.push(error_idx);
        }
    }

    fn register_success(&mut self, idx: MultiErrorHandlerIndex) {
        let ghost s0 = self.slice_stack@;
        let (start, end) = self.slice_stack.pop().unwrap();
        let n = self.slice_stack.len();
        if n > 0 {
            let (pstart, pend) = self.slice_stack[n - 1];
            let new_end = if pend >= end { pend } else { end };
            self.slice_stack.set(n - 1, (pstart, new_end));
        }
        proof {
            assert(self.slice_stack@ =~= pop_slice(s0));
        }
    }

    fn register_watermark(&mut self, pos: usize) {
        let n = self.slice_stack.len();
        if n > 0 {
            let (start, end) = self.slice_stack[n - 1];
            let new_end = if end >= pos { end } else { pos };
            self.slice_stack.set(n - 1, (start, new_end));
        }
    }

    fn is_real(&self) -> (b: bool) {
        true
    }
}

/// The views of a list of strings.
pub open spec fn label_views(v: Seq<String>) -> Seq<Seq<char>> {
    v.map_values(|s: String| s@)
}

/// Whether `v` holds a string whose view is `l`.
fn contains_label(v: &Vec<String>, l: &String) -> (b: bool)
    ensures
        b == label_views(v@).contains(l@),
{
    let mut i: usize = 0;
    while i < v.len()
        invariant
            0 <= i <= v@.len(),
            forall|j: int| 0 <= j < i ==> v@[j]@ != l@,
        decreases v@.len() - i,
    {
        if v[i] == *l {
            proof {
                assert(label_views(v@)[i as int] == l@);
            }
            return true;
        }
        i = i + 1;
    }
    proof {
        if label_views(v@).contains(l@) {
            let j = choose|j: int| 0 <= j < v@.len() && #[trigger] label_views(v@)[j] == l@;
            assert(v@[j]@ == l@);
        }
    }
    false
}

impl MultiErrorHandler {
    /// Convert the accumulated state into a [`FurthestFailError`].
    ///
    /// If any label was recorded, the span is the best failure slice; otherwise it is the
    /// root slice, whose end is the furthest watermark of the whole parse. The expected
    /// labels keep their first occurrences in order.
    pub fn to_parser_error(&self) -> (e: FurthestFailError)
        ensures
            e@ == self@.report(),
    {
        let mut expected: Vec<String> = Vec::new();
        let mut has_errors = false;
        let mut i: usize = 0;
        while i < self.errors.len()
            invariant
                0 <= i <= self.errors@.len(),
                has_errors == (present_labels(self@.errors.take(i as int)).len() > 0),
                label_views(expected@) == dedup_labels(
                    present_labels(self@.errors.take(i as int)),
                ),
            decreases self.errors@.len() - i,
        {
            let ghost prev = self@.errors.take(i as int);
            proof {
                assert(self@.errors.take(i + 1).drop_last() =~= prev);
                assert(self@.errors.take(i + 1).last() == opt_label(self.errors@[i as int]));
            }
            match &self.errors[i] {
                Some(l) => {
                    proof {
                        assert(present_labels(self@.errors.take(i + 1)) == present_labels(prev).push(
                            l@,
                        ));
                        assert(present_labels(prev).push(l@).drop_last() =~= present_labels(prev));
                    }
                    has_errors = true;
                    if !contains_label(&expected, l) {
                        let ghost before = expected@;
                        expected.push(l.clone());
                        proof {
                            assert(label_views(expected@) =~= label_views(before).push(l@));
                        }
                    }
                },
                None => {
                    proof {
                        assert(present_labels(self@.errors.take(i + 1)) == present_labels(prev));
                    }
                },
            }
            i = i + 1;
        }
        proof {
            assert(self@.errors.take(i as int) =~= self@.errors);
        }
        let span = if has_errors {
            self.best_failure_slice
        } else if self.slice_stack.len() > 0 {
            self.slice_stack[0]
        } else {
            (0, 0)
        };
        let e = FurthestFailError { span, expected, annotations: ParserErrorAnnotations::new() };
        proof {
            assert(e@.notes =~= Seq::<Seq<char>>::empty());
            assert(e@.help =~= Seq::<Seq<char>>::empty());
            assert(e@.extra_labels =~= Seq::<((usize, usize), Seq<char>)>::empty());
        }
        e
    }
}

/// Clearing labels keeps the error list's length and drops only a suffix of `at_start`.
proof fn lemma_clear_after(errors: Seq<Option<Seq<char>>>, at_start: Seq<usize>, e: usize)
    requires
        forall|k: int| 0 <= k < at_start.len() ==> #[trigger] at_start[k] < errors.len(),
    ensures
        clear_after(errors, at_start, e).0.len() == errors.len(),
        clear_after(errors, at_start, e).1.len() <= at_start.len(),
        forall|k: int|
            0 <= k < clear_after(errors, at_start, e).1.len() ==> #[trigger] clear_after(
                errors,
                at_start,
                e,
            ).1[k] == at_start[k],
    decreases at_start.len(),
{
    if at_start.len() > 0 && at_start.last() > e {
        lemma_clear_after(errors.update(at_start.last() as int, None), at_start.drop_last(), e);
    }
}

/// Every state a [`MultiErrorHandler`] reaches through its operations is well formed.
pub proof fn lemma_multi_handler_wf_preserved(
    m: MultiErrorHandlerModel,
    pos: usize,
    label: Seq<char>,
    idx: MultiErrorHandlerIndex,
    match_start: usize,
)
    requires
        m.wf(),
    ensures
        MultiErrorHandlerModel::initial(pos).wf(),
        m.start(pos).0.wf(),
        m.watermark(pos).wf(),
        m.success(idx).wf(),
        m.error_ok(label, idx, match_start)
            ==> m.error(label, idx, match_start).wf(),
{
    let f = m.slices[idx.slice_idx as int];
    if m.error_ok(label, idx, match_start) && !slice_worse(f, m.best) {
        if slice_better(f, m.best) {
            lemma_clear_after(seq![None::<Seq<char>>], Seq::<usize>::empty(), 0);
        } else {
            lemma_clear_after(m.errors, m.at_start, idx.error_idx);
        }
    }
}

/// The best failure slice of a [`MultiErrorHandler`] never moves backwards: both its start
/// and its end only grow.
pub proof fn lemma_best_slice_monotone(
    m: MultiErrorHandlerModel,
    pos: usize,
    label: Seq<char>,
    idx: MultiErrorHandlerIndex,
    match_start: usize,
)
    requires
        m.error_ok(label, idx, match_start),
    ensures
        ({
            let b = m.error(label, idx, match_start).best;
            b.0 >= m.best.0 && b.1 >= m.best.1
        }),
        m.start(pos).0.best == m.best,
        m.watermark(pos).best == m.best,
        m.success(idx).best == m.best,
{
}

/// A rule that starts and then succeeds leaves the handler as deep as it found it: the handle
/// it was given names the innermost open rule, closing it pops exactly its slice, the parent
/// slice keeps its start and reaches at least as far as before, and no failure is recorded.
pub proof fn lemma_start_success_balanced(m: MultiErrorHandlerModel, pos: usize)
    requires
        0 < m.slices.len() < usize::MAX,
    ensures
        ({
            let (m1, idx) = m.start(pos);
            let m2 = m1.success(idx);
            &&& m1.success_ok(idx)
            &&& m2.slices.len() == m.slices.len()
            &&& m2.slices.drop_last() == m.slices.drop_last()
            &&& m2.slices.last().0 == m.slices.last().0
            &&& m2.slices.last().1 == max_pos(m.slices.last().1, pos)
            &&& m2.best == m.best
            &&& present_labels(m2.errors) == present_labels(m.errors)
        }),
{
    let (m1, idx) = m.start(pos);
    assert(m1.slices.drop_last() == m.slices);
    assert(m1.success(idx).slices.drop_last() =~= m.slices.drop_last());
    assert(m1.errors.drop_last() == m.errors);
}

/// A removal of repetitions yields a list without repetitions that holds exactly the labels
/// it started from.
pub proof fn lemma_dedup_labels(labels: Seq<Seq<char>>)
    ensures
        dedup_labels(labels).no_duplicates(),
        forall|l: Seq<char>| dedup_labels(labels).contains(l) <==> labels.contains(l),
    decreases labels.len(),
{
    if labels.len() > 0 {
        lemma_dedup_labels(labels.drop_last());
        let rest = dedup_labels(labels.drop_last());
        let last = labels.last();
        if !rest.contains(last) {
            assert(rest.push(last).no_duplicates()) by {
                assert forall|a: int, b: int|
                    0 <= a < rest.push(last).len() && 0 <= b < rest.push(last).len() && a != b
                    implies rest.push(last)[a] != rest.push(last)[b] by {
                    if a == rest.len() {
                        assert(rest[b] == rest.push(last)[b]);
                    } else if b == rest.len() {
                        assert(rest[a] == rest.push(last)[a]);
                    }
                }
            }
        }
        assert forall|l: Seq<char>| dedup_labels(labels).contains(l) <==> labels.contains(l) by {
            if l == last {
                assert(labels[labels.len() - 1] == l);
                if !rest.contains(last) {
                    assert(rest.push(last)[rest.len() as int] == l);
                }
            }
            if dedup_labels(labels).contains(l) && !rest.contains(l) {
                let k = choose|k: int| 0 <= k < dedup_labels(labels).len() && #[trigger] dedup_labels(labels)[k] == l;
                assert(k == rest.len());
            }
            if rest.contains(l) {
                let k = choose|k: int| 0 <= k < rest.len() && #[trigger] rest[k] == l;
                if !rest.contains(last) {
                    assert(rest.push(last)[k] == l);
                }
            }
            if labels.contains(l) {
                let k = choose|k: int| 0 <= k < labels.len() && #[trigger] labels[k] == l;
                if k < labels.len() - 1 {
                    assert(labels.drop_last()[k] == l);
                }
            }
            if labels.drop_last().contains(l) {
                let k = choose|k: int| 0 <= k < labels.len() - 1 && #[trigger] labels.drop_last()[k] == l;
                assert(labels[k] == l);
            }
        }
    }
}

/// What a failure does to the recorded labels, by where its slice lies against the best one:
/// a worse failure changes nothing but the open slices; a better one becomes the best and
/// leaves its label as the only one recorded; one exactly as good keeps the best and records
/// its label in its own entry.
pub proof fn lemma_register_error_effect(
    m: MultiErrorHandlerModel,
    label: Seq<char>,
    idx: MultiErrorHandlerIndex,
    match_start: usize,
)
    requires
        m.error_ok(label, idx, match_start),
    ensures
        ({
            let f = m.slices[idx.slice_idx as int];
            let m2 = m.error(label, idx, match_start);
            &&& slice_worse(f, m.best) ==> m2.best == m.best && m2.errors == m.errors && m2.at_start == m.at_start
            &&& !slice_worse(f, m.best) && slice_better(f, m.best) ==> m2.best == f && present_labels(m2.errors)
                == seq![label]
            &&& !slice_worse(f, m.best) && !slice_better(f, m.best) ==> m2.best == m.best
                && m2.errors[idx.error_idx as int] == Some(label)
            &&& m2.slices == pop_slice(m.slices)
        }),
{
    let f = m.slices[idx.slice_idx as int];
    if !slice_worse(f, m.best) {
        if slice_better(f, m.best) {
            lemma_clear_after(seq![None::<Seq<char>>], Seq::<usize>::empty(), 0);
            let m2 = m.error(label, idx, match_start);
            assert(m2.errors =~= seq![Some(label)]);
            assert(m2.errors.drop_last() =~= Seq::<Option<Seq<char>>>::empty());
            assert(present_labels(m2.errors.drop_last()) == Seq::<Seq<char>>::empty());
            assert(m2.errors.last() == Some(label));
            assert(present_labels(m2.errors) == Seq::<Seq<char>>::empty().push(label));
            assert(Seq::<Seq<char>>::empty().push(label) =~= seq![label]);
        } else {
            lemma_clear_after(m.errors, m.at_start, idx.error_idx);
        }
    }
}

} // verus!
