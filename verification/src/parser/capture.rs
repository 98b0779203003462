//! Captures: a matcher whose binds are collected into slots, and a constructor that builds
//! the output from them.
//!
//! Binders ([`ResultBinder`], [`SpanBinder`]) push a [`Bound`] value for a slot when they
//! match; the rule bookkeeping drops the values bound inside a failed branch. When the
//! capture's matcher matches, the bound values are put into their slots in binding order:
//! a single slot must be set exactly once, an optional slot at most once, and a multiple
//! slot collects every value.
use vstd::prelude::*;
use crate::matcher::lemma_run_handler_blind;
use crate::error_handler::HandlerModel;
use crate::context::{Bound, CaptureValue, Outcome, ParserContext, Slot, State, exec_state};
use crate::error::MatcherRunError;
use crate::error_handler::ErrorHandler;
use crate::input::{Input, InputStream};
use crate::matcher::{
    Matcher, NoMemoizeBacktrackingRunner, grows, lemma_grows_same, lemma_run_bounds, run_match,
    spec_run,
};
use crate::parser::Parser;

verus! {

broadcast use vstd::seq::group_seq_axioms;

/// Something that names a slot of a capture.
pub trait Property {
    /// The slot.
    spec fn spec_slot(&self) -> Slot;

    /// The slot.
    fn slot(&self) -> (s: Slot)
        ensures
            s == self.spec_slot(),
    ;
}

/// A slot that must be bound exactly once.
#[derive(Clone, Copy)]
pub struct SingleProperty {
    /// Index among the single slots.
    pub index: usize,
}

/// A slot that collects every bound value.
#[derive(Clone, Copy)]
pub struct MultipleProperty {
    /// Index among the multiple slots.
    pub index: usize,
}

/// A slot that may be bound at most once.
#[derive(Clone, Copy)]
pub struct OptionalProperty {
    /// Index among the optional slots.
    pub index: usize,
}

impl SingleProperty {
    /// The single slot `index`.
    pub fn new(index: usize) -> (p: Self)
        ensures
            p.index == index,
    {
        SingleProperty { index }
    }
}

impl MultipleProperty {
    /// The multiple slot `index`.
    pub fn new(index: usize) -> (p: Self)
        ensures
            p.index == index,
    {
        MultipleProperty { index }
    }
}

impl OptionalProperty {
    /// The optional slot `index`.
    pub fn new(index: usize) -> (p: Self)
        ensures
            p.index == index,
    {
        OptionalProperty { index }
    }
}

impl Property for SingleProperty {
    open spec fn spec_slot(&self) -> Slot {
        Slot::Single(self.index)
    }

    fn slot(&self) -> (s: Slot) {
        Slot::Single(self.index)
    }
}

impl Property for MultipleProperty {
    open spec fn spec_slot(&self) -> Slot {
        Slot::Multiple(self.index)
    }

    fn slot(&self) -> (s: Slot) {
        Slot::Multiple(self.index)
    }
}

impl Property for OptionalProperty {
    open spec fn spec_slot(&self) -> Slot {
        Slot::Optional(self.index)
    }

    fn slot(&self) -> (s: Slot) {
        Slot::Optional(self.index)
    }
}

/// Marks binders that bind a value.
pub trait HasProperty {}

/// Marks matchers that bind nothing themselves.
pub trait HasNoProperty {}

/// Marks matchers that always match.
pub trait CanNotFail {}

/// Model of the slots of a capture being filled.
pub struct SlotsModel<V> {
    /// Single slots.
    pub single: Seq<Option<CaptureValue<V>>>,
    /// Multiple slots.
    pub multiple: Seq<Seq<CaptureValue<V>>>,
    /// Optional slots.
    pub optional: Seq<Option<CaptureValue<V>>>,
}

/// The values a capture's constructor receives.
pub struct Captured<V> {
    /// One value per single slot.
    pub single: Vec<CaptureValue<V>>,
    /// The values of each multiple slot, in binding order.
    pub multiple: Vec<Vec<CaptureValue<V>>>,
    /// The value of each optional slot, if bound.
    pub optional: Vec<Option<CaptureValue<V>>>,
}

/// Model of [`Captured`].
pub struct CapturedView<V> {
    /// One value per single slot.
    pub single: Seq<CaptureValue<V>>,
    /// The values of each multiple slot.
    pub multiple: Seq<Seq<CaptureValue<V>>>,
    /// The value of each optional slot, if bound.
    pub optional: Seq<Option<CaptureValue<V>>>,
}

impl<V> View for Captured<V> {
    type V = CapturedView<V>;

    open spec fn view(&self) -> CapturedView<V> {
        CapturedView {
            single: self.single@,
            multiple: self.multiple@.map_values(|v: Vec<CaptureValue<V>>| v@),
            optional: self.optional@,
        }
    }
}

/// Empty slots of the given numbers.
pub open spec fn empty_slots<V>(shape: (usize, usize, usize)) -> SlotsModel<V> {
    SlotsModel {
        single: Seq::new(shape.0 as nat, |i: int| None),
        multiple: Seq::new(shape.1 as nat, |i: int| Seq::empty()),
        optional: Seq::new(shape.2 as nat, |i: int| None),
    }
}

/// Put one bound value into its slot; `None` where this panics (no such slot, or a single
/// or optional slot already set).
pub open spec fn put_bound<V>(m: SlotsModel<V>, b: Bound<V>) -> Option<SlotsModel<V>> {
    match b.slot {
        Slot::Single(i) => {
            if i < m.single.len() && m.single[i as int] is None {
                Some(SlotsModel { single: m.single.update(i as int, Some(b.value)), ..m })
            } else {
                None
            }
        },
        Slot::Multiple(i) => {
            if i < m.multiple.len() {
                Some(
                    SlotsModel {
                        multiple: m.multiple.update(i as int, m.multiple[i as int].push(b.value)),
                        ..m
                    },
                )
            } else {
                None
            }
        },
        Slot::Optional(i) => {
            if i < m.optional.len() && m.optional[i as int] is None {
                Some(SlotsModel { optional: m.optional.update(i as int, Some(b.value)), ..m })
            } else {
                None
            }
        },
    }
}

/// Put the bound values into their slots in binding order; `None` where this panics.
pub open spec fn put_all<V>(m: SlotsModel<V>, binds: Seq<Bound<V>>) -> Option<SlotsModel<V>>
    decreases binds.len(),
{
    if binds.len() == 0 {
        Some(m)
    } else {
        match put_all(m, binds.drop_last()) {
            Some(m2) => put_bound(m2, binds.last()),
            None => None,
        }
    }
}

/// Every single slot is set.
pub open spec fn all_single_set<V>(m: SlotsModel<V>) -> bool {
    forall|i: int| 0 <= i < m.single.len() ==> #[trigger] m.single[i] is Some
}

/// What the constructor receives from filled slots; `None` where a single slot is unset
/// (the capture panics).
pub open spec fn captured_of<V>(shape: (usize, usize, usize), binds: Seq<Bound<V>>) -> Option<
    CapturedView<V>,
> {
    match put_all(empty_slots(shape), binds) {
        Some(m) => if all_single_set(m) {
            Some(
                CapturedView {
                    single: m.single.map_values(|o: Option<CaptureValue<V>>| o.unwrap()),
                    multiple: m.multiple,
                    optional: m.optional,
                },
            )
        } else {
            None
        },
        None => None,
    }
}

/// `f` accepts every argument and returns one value for each argument contents.
pub open spec fn ctor_exact<V, O, F: Fn(Captured<V>) -> O>(f: F) -> bool {
    &&& forall|c: Captured<V>| call_requires(f, (c,))
    &&& forall|c1: Captured<V>, c2: Captured<V>, b1: O, b2: O|
        c1@ == c2@ && #[trigger] call_ensures(f, (c1,), b1) && #[trigger] call_ensures(f, (c2,), b2)
            ==> b1 == b2
}

/// `f` may return `b` for an argument whose contents are `c`.
pub open spec fn constructs_to<V, O, F: Fn(Captured<V>) -> O>(f: F, c: CapturedView<V>, b: O) -> bool {
    exists|a: Captured<V>| a@ == c && #[trigger] call_ensures(f, (a,), b)
}

/// The value `f` returns for an argument whose contents are `c`.
pub open spec fn apply_ctor<V, O, F: Fn(Captured<V>) -> O>(f: F, c: CapturedView<V>) -> O {
    choose|b: O| constructs_to(f, c, b)
}

/// A value returned by a call of a deterministic constructor is the one [`apply_ctor`]
/// names.
pub proof fn lemma_apply_ctor<V, O, F: Fn(Captured<V>) -> O>(f: F, a: Captured<V>, b: O)
    requires
        ctor_exact(f),
        call_ensures(f, (a,), b),
    ensures
        apply_ctor(f, a@) == b,
{
    assert(constructs_to(f, a@, b));
    let b2 = apply_ctor(f, a@);
    let a2 = choose|a2: Captured<V>| a2@ == a@ && #[trigger] call_ensures(f, (a2,), b2);
    assert(call_ensures(f, (a2,), b2));
}

/// A prefix of binds that can be put into slots can be put into slots.
pub proof fn lemma_put_all_prefix<V>(m: SlotsModel<V>, binds: Seq<Bound<V>>, k: int)
    requires
        0 <= k <= binds.len(),
        put_all(m, binds) is Some,
    ensures
        put_all(m, binds.take(k)) is Some,
    decreases binds.len(),
{
    if k < binds.len() {
        assert(binds.drop_last().take(k) =~= binds.take(k));
        lemma_put_all_prefix(m, binds.drop_last(), k);
    } else {
        assert(binds.take(k) =~= binds);
    }
}

/// The values bound to `slot`, in binding order.
pub open spec fn bound_to<V>(binds: Seq<Bound<V>>, slot: Slot) -> Seq<CaptureValue<V>>
    decreases binds.len(),
{
    if binds.len() == 0 {
        Seq::empty()
    } else if binds.last().slot == slot {
        bound_to(binds.drop_last(), slot).push(binds.last().value)
    } else {
        bound_to(binds.drop_last(), slot)
    }
}

/// A slot that held `o` after the values `vs` were put into it, where at most one may be.
pub open spec fn settled<V>(o: Option<CaptureValue<V>>, vs: Seq<CaptureValue<V>>) -> Option<CaptureValue<V>> {
    if vs.len() == 0 {
        o
    } else {
        Some(vs[0])
    }
}

/// Putting bound values into slots gives each slot the values bound to it: a multiple slot
/// gains every value bound to it, in binding order; a single or optional slot receives the
/// value bound to it, where one is, and is left as it was where none is; and where the
/// values fit, a single or optional slot had at most one value bound to it, and only if it
/// was empty.
pub proof fn lemma_put_all_slots<V>(m0: SlotsModel<V>, binds: Seq<Bound<V>>)
    ensures
        match put_all(m0, binds) {
            Some(m) => {
                &&& m.single.len() == m0.single.len()
                &&& m.multiple.len() == m0.multiple.len()
                &&& m.optional.len() == m0.optional.len()
                &&& forall|k: usize|
                    k < m.multiple.len() ==> #[trigger] m.multiple[k as int] == m0.multiple[k as int]
                        + bound_to(binds, Slot::Multiple(k))
                &&& forall|k: usize|
                    k < m.single.len() ==> #[trigger] m.single[k as int] == settled(
                        m0.single[k as int],
                        bound_to(binds, Slot::Single(k)),
                    ) && bound_to(binds, Slot::Single(k)).len() <= 1 && (bound_to(
                        binds,
                        Slot::Single(k),
                    ).len() == 1 ==> m0.single[k as int] is None)
                &&& forall|k: usize|
                    k < m.optional.len() ==> #[trigger] m.optional[k as int] == settled(
                        m0.optional[k as int],
                        bound_to(binds, Slot::Optional(k)),
                    ) && bound_to(binds, Slot::Optional(k)).len() <= 1 && (bound_to(
                        binds,
                        Slot::Optional(k),
                    ).len() == 1 ==> m0.optional[k as int] is None)
            },
            None => true,
        },
    decreases binds.len(),
{
    if binds.len() == 0 {
        assert forall|k: usize| k < m0.multiple.len() implies #[trigger] m0.multiple[k as int]
            == m0.multiple[k as int] + bound_to(binds, Slot::Multiple(k)) by {
            assert(m0.multiple[k as int] + Seq::<CaptureValue<V>>::empty() =~= m0.multiple[k as int]);
        }
    } else {
        let dl = binds.drop_last();
        let b = binds.last();
        lemma_put_all_slots(m0, dl);
        if let Some(m1) = put_all(m0, dl) {
            if let Some(m) = put_bound(m1, b) {
                assert forall|k: usize| k < m.multiple.len() implies #[trigger] m.multiple[k as int]
                    == m0.multiple[k as int] + bound_to(binds, Slot::Multiple(k)) by {
                    if b.slot == Slot::Multiple(k) {
                        assert(m0.multiple[k as int] + bound_to(dl, Slot::Multiple(k)).push(b.value) =~= (
                        m0.multiple[k as int] + bound_to(dl, Slot::Multiple(k))).push(b.value));
                    }
                }
                assert forall|k: usize| k < m.single.len() implies #[trigger] m.single[k as int] == settled(
                    m0.single[k as int],
                    bound_to(binds, Slot::Single(k)),
                ) && bound_to(binds, Slot::Single(k)).len() <= 1 && (bound_to(binds, Slot::Single(k)).len()
                    == 1 ==> m0.single[k as int] is None) by {
                    if b.slot == Slot::Single(k) {
                        assert(bound_to(dl, Slot::Single(k)).len() == 0);
                    }
                }
                assert forall|k: usize| k < m.optional.len() implies #[trigger] m.optional[k as int]
                    == settled(m0.optional[k as int], bound_to(binds, Slot::Optional(k))) && bound_to(
                    binds,
                    Slot::Optional(k),
                ).len() <= 1 && (bound_to(binds, Slot::Optional(k)).len() == 1 ==> m0.optional[k as int] is None) by {
                    if b.slot == Slot::Optional(k) {
                        assert(bound_to(dl, Slot::Optional(k)).len() == 0);
                    }
                }
            }
        }
    }
}

/// What a capture's constructor receives holds, for each slot, the values bound to it: a
/// single slot the one value bound to it, a multiple slot every value bound to it in binding
/// order, and an optional slot the value bound to it where one is, `None` where none is.
pub proof fn lemma_captured_values<V>(shape: (usize, usize, usize), binds: Seq<Bound<V>>)
    ensures
        match captured_of(shape, binds) {
            Some(c) => {
                &&& c.single.len() == shape.0
                &&& c.multiple.len() == shape.1
                &&& c.optional.len() == shape.2
                &&& forall|k: usize| k < shape.0 ==> (#[trigger] bound_to(binds, Slot::Single(k))).len() == 1
                &&& forall|k: usize| k < shape.0 ==> #[trigger] c.single[k as int] == bound_to(binds, Slot::Single(k))[0]
                &&& forall|k: usize| k < shape.1 ==> #[trigger] c.multiple[k as int] == bound_to(binds, Slot::Multiple(k))
                &&& forall|k: usize|
                    k < shape.2 ==> #[trigger] c.optional[k as int] == (if bound_to(binds, Slot::Optional(k)).len()
                        == 0 {
                        None
                    } else {
                        Some(bound_to(binds, Slot::Optional(k))[0])
                    })
            },
            None => true,
        },
{
    let m0 = empty_slots::<V>(shape);
    lemma_put_all_slots(m0, binds);
    if let Some(m) = put_all(m0, binds) {
        if all_single_set(m) {
            let c = captured_of(shape, binds).unwrap();
            assert forall|k: usize| k < shape.0 implies (#[trigger] bound_to(binds, Slot::Single(k))).len() == 1 by {
                assert(m.single[k as int] is Some);
                assert(m0.single[k as int] is None);
            }
            assert forall|k: usize| k < shape.0 implies #[trigger] c.single[k as int] == bound_to(
                binds,
                Slot::Single(k),
            )[0] by {
                assert(m.single[k as int] is Some);
                assert(m0.single[k as int] is None);
            }
            assert forall|k: usize| k < shape.2 implies #[trigger] c.optional[k as int] == (if bound_to(
                binds,
                Slot::Optional(k),
            ).len() == 0 {
                None
            } else {
                Some(bound_to(binds, Slot::Optional(k))[0])
            }) by {
                assert(m0.optional[k as int] is None);
            }
            assert forall|k: usize| k < shape.1 implies #[trigger] m.multiple[k as int] == bound_to(binds, Slot::Multiple(k)) by {
                assert(m0.multiple[k as int] + bound_to(binds, Slot::Multiple(k)) =~= bound_to(binds, Slot::Multiple(k)));
            }
        }
    }
}

/// The views of the lists of a multiple-slot table.
pub open spec fn multiple_views<V>(v: Seq<Vec<CaptureValue<V>>>) -> Seq<Seq<CaptureValue<V>>> {
    v.map_values(|x: Vec<CaptureValue<V>>| x@)
}

/// Put the values bound in `stack` into `shape` slots and hand them over as the
/// constructor's argument (see [`captured_of`]).
pub fn fill_slots<V>(shape: (usize, usize, usize), stack: Vec<Bound<V>>) -> (c: Captured<V>)
    requires
        captured_of(shape, stack@) is Some,
    ensures
        c@ == captured_of(shape, stack@).unwrap(),
{
    let ghost binds = stack@;
    let mut stack = stack;
    let mut single: Vec<Option<CaptureValue<V>>> = Vec::new();
    let mut multiple: Vec<Vec<CaptureValue<V>>> = Vec::new();
    let mut optional: Vec<Option<CaptureValue<V>>> = Vec::new();
    let mut i: usize = 0;
    while i < shape.0
        invariant
            i <= shape.0,
            single@ == Seq::new(i as nat, |j: int| None::<CaptureValue<V>>),
        decreases shape.0 - i,
    {
        single.push(None);
        i = i + 1;
        proof {
            assert(single@ =~= Seq::new(i as nat, |j: int| None::<CaptureValue<V>>));
        }
    }
    let mut i: usize = 0;
    while i < shape.1
        invariant
            i <= shape.1,
            multiple_views(multiple@) == Seq::new(i as nat, |j: int| Seq::<CaptureValue<V>>::empty()),
        decreases shape.1 - i,
    {
        let ghost before = multiple@;
        multiple.push(Vec::new());
        i = i + 1;
        proof {
            assert(multiple_views(multiple@) =~= multiple_views(before).push(Seq::empty()));
            assert(multiple_views(multiple@) =~= Seq::new(i as nat, |j: int| Seq::<CaptureValue<V>>::empty()));
        }
    }
    let mut i: usize = 0;
    while i < shape.2
        invariant
            i <= shape.2,
            optional@ == Seq::new(i as nat, |j: int| None::<CaptureValue<V>>),
        decreases shape.2 - i,
    {
        optional.push(None);
        i = i + 1;
        proof {
            assert(optional@ =~= Seq::new(i as nat, |j: int| None::<CaptureValue<V>>));
        }
    }
    proof {
        assert(binds.take(0) =~= Seq::<Bound<V>>::empty());
    }
    let ghost total = binds.len();
    while stack.len() > 0
        invariant
            total == binds.len(),
            stack@.len() <= total,
            stack@ == binds.skip(total - stack@.len()),
            put_all(empty_slots::<V>(shape), binds) is Some,
            put_all(empty_slots::<V>(shape), binds.take(total - stack@.len())) == Some(
                SlotsModel { single: single@, multiple: multiple_views(multiple@), optional: optional@ },
            ),
        decreases stack@.len(),
    {
        let ghost k = total - stack@.len();
        let ghost before = SlotsModel { single: single@, multiple: multiple_views(multiple@), optional: optional@ };
        let b = stack.remove(0);
        proof {
            assert(b == binds[k]);
            assert(stack@ =~= binds.skip(k + 1));
            assert(binds.take(k + 1).drop_last() =~= binds.take(k));
            lemma_put_all_prefix(empty_slots::<V>(shape), binds, k + 1);
        }
        match b.slot {
            Slot::Single(i) => {
                single.set(i, Some(b.value));
            },
            Slot::Multiple(i) => {
                let ghost mb = multiple@;
                let mut inner = multiple.remove(i);
                inner.push(b.value);
                multiple.insert(i, inner);
                proof {
                    assert(multiple_views(multiple@) =~= multiple_views(mb).update(
                        i as int,
                        multiple_views(mb)[i as int].push(b.value),
                    ));
                }
            },
            Slot::Optional(i) => {
                optional.set(i, Some(b.value));
            },
        }
        proof {
            assert(SlotsModel { single: single@, multiple: multiple_views(multiple@), optional: optional@ }
                =~= put_bound(before, b).unwrap());
        }
    }
    proof {
        assert(binds.take(total as int) =~= binds);
    }
    let ghost m = SlotsModel { single: single@, multiple: multiple_views(multiple@), optional: optional@ };
    let ghost n = single@.len();
    let mut values: Vec<CaptureValue<V>> = Vec::new();
    while single.len() > 0
        invariant
            all_single_set(m),
            n == m.single.len(),
            single@.len() <= n,
            single@ == m.single.skip(n - single@.len()),
            values@ == m.single.take(n - single@.len()).map_values(
                |o: Option<CaptureValue<V>>| o.unwrap(),
            ),
        decreases single@.len(),
    {
        let ghost k = n - single@.len();
        let o = single.remove(0);
        proof {
            assert(o == m.single[k]);
            assert(m.single[k] is Some);
            assert(single@ =~= m.single.skip(k + 1));
        }
        match o {
            Some(v) => {
                values.push(v);
            },
            None => {},
        }
        proof {
            assert(values@ =~= m.single.take(k + 1).map_values(|o: Option<CaptureValue<V>>| o.unwrap()));
        }
    }
    proof {
        assert(m.single.take(n as int) =~= m.single);
    }
    Captured { single: values, multiple, optional }
}

/// A parser built from a matcher and a constructor: where the matcher matches, its bound
/// values fill `shape` slots (single, multiple, optional) and the constructor builds the
/// output from them.
pub struct Capture<M, F> {
    /// The grammar fragment.
    pub matcher: M,
    /// Builds the output from the filled slots.
    pub constructor: F,
    /// Numbers of single, multiple and optional slots.
    pub shape: (usize, usize, usize),
}

impl<M, F> Capture<M, F> {
    /// A capture of `matcher` into `shape` slots, built by `constructor`.
    pub fn new(matcher: M, constructor: F, shape: (usize, usize, usize)) -> (r: Self)
        ensures
            r.matcher == matcher,
            r.constructor == constructor,
            r.shape == shape,
    {
        Capture { matcher, constructor, shape }
    }
}

impl<Inp: Input, V, O, M: Matcher<Inp, V>, F: Fn(Captured<V>) -> O> Parser<Inp, V> for Capture<M, F> {
    type Output = O;

    open spec fn wf(&self) -> bool {
        self.matcher.wf() && ctor_exact(self.constructor)
    }

    open spec fn spec_label(&self) -> Option<Seq<char>> {
        None
    }

    open spec fn spec_parse(&self, inp: Inp, rec: bool, s: State<V>) -> (Outcome<Option<O>>, State<V>) {
        let s1 = State { match_start: s.pos as usize, ..s }.with_binds(Seq::empty());
        let (o, s2) = spec_run::<Inp, V, M>(self.matcher, inp, rec, s1);
        let restored = State { match_start: s.match_start, ..s2 }.with_binds(s.binds);
        match o {
            Outcome::Done(true) => match captured_of(self.shape, s2.binds) {
                Some(c) => (Outcome::Done(Some(apply_ctor(self.constructor, c))), restored),
                None => (Outcome::Stuck, restored),
            },
            Outcome::Done(false) => (Outcome::Done(None), restored),
            Outcome::Failed(e) => (Outcome::Failed(e), s2.with_binds(s.binds)),
            Outcome::Stuck => (Outcome::Stuck, s2.with_binds(s.binds)),
        }
    }

    proof fn lemma_parse_bounds(&self, inp: Inp, rec: bool, s: State<V>) {
        let s1 = State { match_start: s.pos as usize, ..s }.with_binds(Seq::empty());
        lemma_run_bounds::<Inp, V, M>(self.matcher, inp, rec, s1);
        assert(s.binds.take(s.binds.len() as int) =~= s.binds);
    }

    proof fn lemma_parse_handler_blind(&self, inp: Inp, rec: bool, s: State<V>, eh2: HandlerModel) {
        let t = State { match_start: s.pos as usize, ..s }.with_binds(Seq::empty());
        assert(State { match_start: s.pos as usize, ..s.with_eh(eh2) }.with_binds(Seq::empty()) == t.with_eh(eh2));
        lemma_run_handler_blind::<Inp, V, M>(self.matcher, inp, rec, t, eh2);
    }

    fn maybe_label(&self) -> (l: Option<String>) {
        None
    }

    fn parse<EH: ErrorHandler>(
        &self,
        ctx: &mut ParserContext<V>,
        eh: &mut EH,
        input: &mut InputStream<Inp>,
    ) -> (r: Result<Option<O>, MatcherRunError>) {
        let old_match_start = ctx.match_start;
        ctx.match_start = input.get_pos();
        let mut runner = NoMemoizeBacktrackingRunner::new();
        proof {
            assert(runner.stack@ =~= Seq::<Bound<V>>::empty());
        }
        match run_match(&self.matcher, ctx, &mut runner, eh, input) {
            Ok(true) => {
                let c = fill_slots(self.shape, runner.stack);
                let out = (self.constructor)(c);
                proof {
                    lemma_apply_ctor(self.constructor, c, out);
                }
                ctx.match_start = old_match_start;
                Ok(Some(out))
            },
            Ok(false) => {
                ctx.match_start = old_match_start;
                Ok(None)
            },
            Err(e) => Err(e),
        }
    }
}

/// Binds the output of `parser` to the slot of `property` where the parser produces one.
pub struct ResultBinder<P, Prop> {
    /// The parser whose output is bound.
    pub parser: P,
    /// The slot.
    pub property: Prop,
}

impl<P, Prop> ResultBinder<P, Prop> {
    /// Bind the output of `parser` to `property`.
    pub fn new(parser: P, property: Prop) -> (r: Self)
        ensures
            r.parser == parser,
            r.property == property,
    {
        ResultBinder { parser, property }
    }
}

/// See [`ResultBinder`].
pub fn bind_result<P, Prop>(parser: P, property: Prop) -> (r: ResultBinder<P, Prop>)
    ensures
        r.parser == parser,
        r.property == property,
{
    ResultBinder::new(parser, property)
}

impl<Inp: Input, V, P: Parser<Inp, V, Output = V>, Prop: Property> Matcher<Inp, V> for ResultBinder<
    P,
    Prop,
> {
    open spec fn wf(&self) -> bool {
        self.parser.wf()
    }

    open spec fn spec_label(&self) -> Option<Seq<char>> {
        None
    }

    open spec fn spec_match(&self, inp: Inp, rec: bool, s: State<V>) -> (Outcome<bool>, State<V>) {
        let (o, s2) = self.parser.spec_parse(inp, rec, s.with_binds(Seq::empty()));
        match o {
            Outcome::Done(Some(x)) => (
                Outcome::Done(true),
                s2.with_binds(
                    s.binds.push(Bound { value: CaptureValue::Value(x), slot: self.property.spec_slot() }),
                ),
            ),
            Outcome::Done(None) => (Outcome::Done(false), s2.with_binds(s.binds)),
            Outcome::Failed(e) => (Outcome::Failed(e), s2.with_binds(s.binds)),
            Outcome::Stuck => (Outcome::Stuck, s2.with_binds(s.binds)),
        }
    }

    proof fn lemma_match_bounds(&self, inp: Inp, rec: bool, s: State<V>) {
        self.parser.lemma_parse_bounds(inp, rec, s.with_binds(Seq::empty()));
        assert(s.binds.take(s.binds.len() as int) =~= s.binds);
        let (o, s2) = self.parser.spec_parse(inp, rec, s.with_binds(Seq::empty()));
        if let Outcome::Done(Some(x)) = o {
            let b = Bound { value: CaptureValue::Value(x), slot: self.property.spec_slot() };
            assert(s.binds.push(b).take(s.binds.len() as int) =~= s.binds);
        }
    }

    proof fn lemma_match_handler_blind(&self, inp: Inp, rec: bool, s: State<V>, eh2: HandlerModel) {
        let t = s.with_binds(Seq::empty());
        assert(s.with_eh(eh2).with_binds(Seq::empty()) == t.with_eh(eh2));
        self.parser.lemma_parse_handler_blind(inp, rec, t, eh2);
    }

    fn maybe_label(&self) -> (l: Option<String>) {
        None
    }

    fn match_with_runner<EH: ErrorHandler>(
        &self,
        ctx: &mut ParserContext<V>,
        runner: &mut NoMemoizeBacktrackingRunner<V>,
        eh: &mut EH,
        input: &mut InputStream<Inp>,
    ) -> (r: Result<bool, MatcherRunError>) {
        match self.parser.parse(ctx, eh, input) {
            Ok(Some(x)) => {
                let slot = self.property.slot();
                runner.stack.push(Bound { value: CaptureValue::Value(x), slot });
                Ok(true)
            },
            Ok(None) => Ok(false),
            Err(e) => Err(e),
        }
    }
}

/// Binds the span that `matcher` consumed to the slot of `property` where it matches.
pub struct SpanBinder<M, Prop> {
    /// The matcher whose span is bound.
    pub matcher: M,
    /// The slot.
    pub property: Prop,
}

impl<M, Prop> SpanBinder<M, Prop> {
    /// Bind the span of `matcher` to `property`.
    pub fn new(matcher: M, property: Prop) -> (r: Self)
        ensures
            r.matcher == matcher,
            r.property == property,
    {
        SpanBinder { matcher, property }
    }
}

/// See [`SpanBinder`].
pub fn bind_span<M, Prop>(matcher: M, property: Prop) -> (r: SpanBinder<M, Prop>)
    ensures
        r.matcher == matcher,
        r.property == property,
{
    SpanBinder::new(matcher, property)
}

impl<Inp: Input, V, M: Matcher<Inp, V>, Prop: Property> Matcher<Inp, V> for SpanBinder<M, Prop> {
    open spec fn wf(&self) -> bool {
        self.matcher.wf()
    }

    open spec fn spec_label(&self) -> Option<Seq<char>> {
        None
    }

    open spec fn spec_match(&self, inp: Inp, rec: bool, s: State<V>) -> (Outcome<bool>, State<V>) {
        let (o, s2) = spec_run::<Inp, V, M>(self.matcher, inp, rec, s);
        match o {
            Outcome::Done(true) => (
                Outcome::Done(true),
                s2.with_binds(
                    s2.binds.push(
                        Bound {
                            value: CaptureValue::Span(s.pos as usize, s2.pos as usize),
                            slot: self.property.spec_slot(),
                        },
                    ),
                ),
            ),
            _ => (o, s2),
        }
    }

    proof fn lemma_match_bounds(&self, inp: Inp, rec: bool, s: State<V>) {
        lemma_run_bounds::<Inp, V, M>(self.matcher, inp, rec, s);
        let (o, s2) = spec_run::<Inp, V, M>(self.matcher, inp, rec, s);
        let b = Bound {
            value: CaptureValue::Span(s.pos as usize, s2.pos as usize),
            slot: self.property.spec_slot(),
        };
        assert(s2.binds.push(b).take(s.binds.len() as int) =~= s2.binds.take(s.binds.len() as int));
    }

    proof fn lemma_match_handler_blind(&self, inp: Inp, rec: bool, s: State<V>, eh2: HandlerModel) {
        lemma_run_handler_blind::<Inp, V, M>(self.matcher, inp, rec, s, eh2);
    }

    fn maybe_label(&self) -> (l: Option<String>) {
        None
    }

    fn match_with_runner<EH: ErrorHandler>(
        &self,
        ctx: &mut ParserContext<V>,
        runner: &mut NoMemoizeBacktrackingRunner<V>,
        eh: &mut EH,
        input: &mut InputStream<Inp>,
    ) -> (r: Result<bool, MatcherRunError>) {
        let start = input.get_pos();
        match run_match(&self.matcher, ctx, runner, eh, input) {
            Ok(true) => {
                let end = input.get_pos();
                let slot = self.property.slot();
                runner.stack.push(Bound { value: CaptureValue::Span(start, end), slot });
                Ok(true)
            },
            other => other,
        }
    }
}

impl<M, Prop> HasNoProperty for SpanBinder<M, Prop> {}

impl<P, Prop> HasProperty for ResultBinder<P, Prop> {}

/// The constructor's input holds, slot by slot, the values the capture's matcher bound: a
/// single slot the one value bound to it, a multiple slot every value bound to it in binding
/// order, an optional slot the value bound to it where one is and `None` where none is.
pub open spec fn captured_from<V>(c: CapturedView<V>, shape: (usize, usize, usize), binds: Seq<Bound<V>>) -> bool {
    &&& c.single.len() == shape.0
    &&& c.multiple.len() == shape.1
    &&& c.optional.len() == shape.2
    &&& forall|k: usize| k < shape.0 ==> #[trigger] c.single[k as int] == bound_to(binds, Slot::Single(k))[0]
    &&& forall|k: usize| k < shape.1 ==> #[trigger] c.multiple[k as int] == bound_to(binds, Slot::Multiple(k))
    &&& forall|k: usize|
        k < shape.2 ==> #[trigger] c.optional[k as int] == (if bound_to(binds, Slot::Optional(k)).len() == 0 {
            None
        } else {
            Some(bound_to(binds, Slot::Optional(k))[0])
        })
}

/// A capture builds its output from what its matcher bound: where the matcher matches, the
/// output is the constructor applied to the values bound to each slot (see
/// [`captured_from`]); where the matcher misses, the capture produces nothing; an abort is
/// the matcher's abort.
pub proof fn lemma_capture_builds_from_binds<Inp: Input, V, O, M: Matcher<Inp, V>, F: Fn(Captured<V>) -> O>(
    cap: Capture<M, F>,
    inp: Inp,
    rec: bool,
    s: State<V>,
)
    ensures
        ({
            let t = State { match_start: s.pos as usize, ..s }.with_binds(Seq::empty());
            let (o, s2) = spec_run::<Inp, V, M>(cap.matcher, inp, rec, t);
            let r = <Capture<M, F> as Parser<Inp, V>>::spec_parse(&cap, inp, rec, s).0;
            &&& o == Outcome::<bool>::Done(true) ==> match r {
                Outcome::Done(Some(out)) => exists|c: CapturedView<V>|
                    captured_from(c, cap.shape, s2.binds) && out == apply_ctor(cap.constructor, c),
                _ => r is Stuck,
            }
            &&& o == Outcome::<bool>::Done(false) ==> r == Outcome::<Option<O>>::Done(None)
            &&& o matches Outcome::Failed(e) ==> r == Outcome::<Option<O>>::Failed(e)
        }),
{
    let t = State { match_start: s.pos as usize, ..s }.with_binds(Seq::empty());
    let (o, s2) = spec_run::<Inp, V, M>(cap.matcher, inp, rec, t);
    lemma_captured_values::<V>(cap.shape, s2.binds);
    if o == Outcome::<bool>::Done(true) {
        if let Some(c) = captured_of(cap.shape, s2.binds) {
            assert(captured_from(c, cap.shape, s2.binds));
        }
    }
}

} // verus!
