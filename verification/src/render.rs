//! Human-readable rendering of parse errors: messages, `ariadne` reports and `miette`
//! reports.
use vstd::prelude::*;
use vstd::string::*;
use vstd::utf8::*;
use crate::error::{
    ExtraLabel, FurthestFailError, FurthestFailView, MissingError, ParserError, UnwantedError,
    extra_label_colors, extra_label_views, string_views,
};
use crate::matcher::string::{decimal, str_chars};

verus! {

broadcast use vstd::seq::group_seq_axioms;

/// `String::from_iter` over characters: std documents that collecting characters into a
/// string yields a string holding exactly those characters, in order.
#[verifier::external_body]
pub(crate) fn string_from_chars(v: Vec<char>) -> (s: String)
    ensures
        s@ == v@,
{
    v.into_iter().collect()
}

/// Append the characters of `s`.
pub(crate) fn push_str(out: &mut Vec<char>, s: &str)
    ensures
        final(out)@ == old(out)@ + s@,
{
    let chars = str_chars(s);
    let mut i: usize = 0;
    while i < chars.len()
        invariant
            0 <= i <= chars@.len(),
            chars@ == s@,
            out@ == old(out)@ + s@.take(i as int),
        decreases chars@.len() - i,
    {
        out.push(chars[i]);
        i = i + 1;
        proof {
            assert(out@ =~= old(out)@ + s@.take(i as int));
        }
    }
    proof {
        assert(s@.take(i as int) =~= s@);
    }
}

/// Append the decimal digits of `n`.
pub(crate) fn push_decimal(out: &mut Vec<char>, n: usize)
    ensures
        final(out)@ == old(out)@ + decimal(n as nat),
    decreases n,
{
    if n >= 10 {
        push_decimal(out, n / 10);
    }
    let d = (n % 10) as u32;
    let c = char_from_digit(d);
    out.push(c);
    proof {
        if n < 10 {
            assert(decimal(n as nat) =~= seq![c]);
        } else {
            assert(decimal(n as nat) =~= decimal((n / 10) as nat).push(c));
        }
    }
}

/// The character of the decimal digit `d`.
fn char_from_digit(d: u32) -> (c: char)
    requires
        d < 10,
    ensures
        c == (d + 48) as char,
{
    if d == 0 { '0' } else if d == 1 { '1' } else if d == 2 { '2' } else if d == 3 { '3' } else if d
        == 4 { '4' } else if d == 5 { '5' } else if d == 6 { '6' } else if d == 7 { '7' } else if d
        == 8 { '8' } else { '9' }
}

/// `labels` joined with `sep` between neighbours.
pub open spec fn join(labels: Seq<Seq<char>>, sep: Seq<char>) -> Seq<char>
    decreases labels.len(),
{
    if labels.len() == 0 {
        Seq::empty()
    } else if labels.len() == 1 {
        labels[0]
    } else {
        join(labels.drop_last(), sep) + sep + labels.last()
    }
}

/// Append the views of `v` joined with `sep`.
fn push_joined(out: &mut Vec<char>, v: &Vec<String>, sep: &str)
    ensures
        final(out)@ == old(out)@ + join(string_views(v@), sep@),
{
    let mut i: usize = 0;
    while i < v.len()
        invariant
            0 <= i <= v@.len(),
            out@ == old(out)@ + join(string_views(v@.take(i as int)), sep@),
        decreases v@.len() - i,
    {
        let ghost before = out@;
        if i > 0 {
            push_str(out, sep);
        }
        push_str(out, v[i].as_str());
        i = i + 1;
        proof {
            let l = string_views(v@.take(i as int));
            assert(l.drop_last() =~= string_views(v@.take(i - 1)));
            assert(l.last() == v@[i - 1]@);
            if i > 1 {
                assert(out@ =~= old(out)@ + join(l, sep@));
            } else {
                assert(l =~= seq![v@[0]@]);
                assert(out@ =~= old(out)@ + join(l, sep@));
            }
        }
    }
    proof {
        assert(v@.take(i as int) =~= v@);
    }
}

/// The source text that a span shows: the slice of the span where it is non-empty and
/// lies on character boundaries; otherwise `end of input` at or past the end, and
/// `unknown token` before it.
pub open spec fn found_text(src: &str, span: (usize, usize)) -> Seq<char> {
    let b = src.spec_bytes();
    if span.0 < span.1 && span.1 <= b.len() && is_char_boundary(b, span.0 as int)
        && is_char_boundary(b, span.1 as int) {
        decode_utf8(b.subrange(span.0 as int, span.1 as int))
    } else if span.0 >= b.len() {
        "end of input"@
    } else {
        "unknown token"@
    }
}

/// The primary message of a furthest-failure report.
pub open spec fn main_message_view(expected: Seq<Seq<char>>, found: Seq<char>) -> Seq<char> {
    if expected.len() == 0 {
        "unexpected '"@ + found + "'"@
    } else if expected.len() == 1 {
        "expected "@ + expected[0] + " but found '"@ + found + "'"@
    } else {
        "expected one of "@ + join(expected, ", "@) + " but found '"@ + found + "'"@
    }
}

/// The characters of the source text between two character boundaries.
fn slice_chars(src: &str, start: usize, end: usize) -> (v: Vec<char>)
    requires
        start < end <= src.spec_bytes().len(),
        is_char_boundary(src.spec_bytes(), start as int),
        is_char_boundary(src.spec_bytes(), end as int),
    ensures
        v@ == decode_utf8(src.spec_bytes().subrange(start as int, end as int)),
{
    let ghost b = src.spec_bytes();
    proof {
        encode_utf8_valid_utf8(src@);
        valid_utf8_split(b, end as int);
        let left = b.subrange(0, end as int);
        if start < end {
            assert(left[start as int] == b[start as int]);
            is_char_boundary_iff_not_is_continuation_byte(b, start as int);
            is_char_boundary_iff_not_is_continuation_byte(left, start as int);
        }
    }
    let (left, _) = src.split_at(end);
    let (_, mid) = left.split_at(start);
    proof {
        assert(mid.spec_bytes() =~= b.subrange(start as int, end as int));
        encode_utf8_decode_utf8(mid@);
    }
    str_chars(mid)
}

impl FurthestFailError {
    /// The primary message of this error's report against `source_text`.
    pub fn main_message(&self, source_text: &str) -> (m: String)
        ensures
            m@ == main_message_view(self@.expected, found_text(source_text, self.span)),
    {
        let mut found: Vec<char> = Vec::new();
        let len = source_text.as_bytes().len();
        let (start, end) = self.span;
        if start < end && end <= len && source_text.is_char_boundary(start) && source_text.is_char_boundary(
            end,
        ) {
            found = slice_chars(source_text, start, end);
        } else if start >= len {
            push_str(&mut found, "end of input");
        } else {
            push_str(&mut found, "unknown token");
        }
        proof {
            assert(found@ == found_text(source_text, self.span));
        }
        let mut out: Vec<char> = Vec::new();
        if self.expected.len() == 0 {
            push_str(&mut out, "unexpected '");
        } else if self.expected.len() == 1 {
            push_str(&mut out, "expected ");
            push_str(&mut out, self.expected[0].as_str());
            push_str(&mut out, " but found '");
        } else {
            push_str(&mut out, "expected one of ");
            push_joined(&mut out, &self.expected, ", ");
            push_str(&mut out, " but found '");
        }
        let mut k: usize = 0;
        while k < found.len()
            invariant
                0 <= k <= found@.len(),
                out@ == (if self@.expected.len() == 0 {
                    "unexpected '"@
                } else if self@.expected.len() == 1 {
                    "expected "@ + self@.expected[0] + " but found '"@
                } else {
                    "expected one of "@ + join(self@.expected, ", "@) + " but found '"@
                }) + found@.take(k as int),
            decreases found@.len() - k,
        {
            out.push(found[k]);
            k = k + 1;
            proof {
                assert(found@.take(k as int) =~= found@.take(k - 1).push(found@[k - 1]));
            }
        }
        proof {
            assert(found@.take(k as int) =~= found@);
        }
        push_str(&mut out, "'");
        proof {
            assert(out@ =~= main_message_view(self@.expected, found@));
        }
        string_from_chars(out)
    }
}

/// Annotation builders.
impl FurthestFailError {
    /// This error with `note` added (shown as "note: ..." below the report).
    pub fn with_note(self, note: String) -> (e: Self)
        ensures
            e@ == (FurthestFailView { notes: self@.notes.push(note@), ..self@ }),
            extra_label_colors(e) == extra_label_colors(self),
    {
        let mut e = self;
        e.add_note(note);
        e
    }

    /// Add `note` (shown as "note: ..." below the report).
    pub fn add_note(&mut self, note: String) -> (r: &mut Self)
        ensures
            (*r)@ == (FurthestFailView { notes: old(self)@.notes.push(note@), ..old(self)@ }),
            extra_label_colors(*r) == extra_label_colors(*old(self)),
            *final(self) == *final(r),
    {
        let ghost before = self.annotations.notes@;
        self.annotations.notes.push(note);
        proof {
            assert(string_views(self.annotations.notes@) =~= string_views(before).push(note@));
        }
        self
    }

    /// This error with `help` added (shown as "help: ..." below the report).
    pub fn with_help(self, help: String) -> (e: Self)
        ensures
            e@ == (FurthestFailView { help: self@.help.push(help@), ..self@ }),
            extra_label_colors(e) == extra_label_colors(self),
    {
        let mut e = self;
        e.add_help(help);
        e
    }

    /// Add `help` (shown as "help: ..." below the report).
    pub fn add_help(&mut self, help: String) -> (r: &mut Self)
        ensures
            (*r)@ == (FurthestFailView { help: old(self)@.help.push(help@), ..old(self)@ }),
            extra_label_colors(*r) == extra_label_colors(*old(self)),
            *final(self) == *final(r),
    {
        let ghost before = self.annotations.help@;
        self.annotations.help.push(help);
        proof {
            assert(string_views(self.annotations.help@) =~= string_views(before).push(help@));
        }
        self
    }

    /// This error with an extra highlighted span.
    pub fn with_extra_label(self, span: (usize, usize), message: String, color: ariadne::Color) -> (e: Self)
        ensures
            e@ == (FurthestFailView { extra_labels: self@.extra_labels.push((span, message@)), ..self@ }),
            extra_label_colors(e) == extra_label_colors(self).push(color),
    {
        let mut e = self;
        e.add_extra_label(span, message, color);
        e
    }

    /// Add an extra highlighted span.
    pub fn add_extra_label(&mut self, span: (usize, usize), message: String, color: ariadne::Color) -> (r:
        &mut Self)
        ensures
            (*r)@ == (FurthestFailView {
                extra_labels: old(self)@.extra_labels.push((span, message@)),
                ..old(self)@
            }),
            extra_label_colors(*r) == extra_label_colors(*old(self)).push(color),
            *final(self) == *final(r),
    {
        let ghost before = self.annotations.extra_labels@;
        let label = ExtraLabel { span, message, color };
        self.annotations.extra_labels.push(label);
        proof {
            assert(extra_label_colors(*self) =~= before.map_values(|l: ExtraLabel| l.color).push(color));
            assert(extra_label_views(self.annotations.extra_labels@) =~= extra_label_views(before).push(
                (span, label.message@),
            ));
        }
        self
    }
}

/// `a` comes before or equals `b` in the lexicographic order of byte strings.
pub open spec fn bytes_le(a: Seq<u8>, b: Seq<u8>) -> bool
    decreases a.len(),
{
    if a.len() == 0 {
        true
    } else if b.len() == 0 {
        false
    } else if a[0] != b[0] {
        a[0] < b[0]
    } else {
        bytes_le(a.drop_first(), b.drop_first())
    }
}

/// `labels` in ascending order of their UTF-8 encodings.
pub open spec fn sorted_labels(labels: Seq<Seq<char>>) -> bool {
    forall|i: int, j: int|
        0 <= i < j < labels.len() ==> bytes_le(encode_utf8(#[trigger] labels[i]), encode_utf8(#[trigger] labels[j]))
}

/// The order of labels by their UTF-8 encodings.
pub open spec fn label_le(a: Seq<char>, b: Seq<char>) -> bool {
    bytes_le(encode_utf8(a), encode_utf8(b))
}

/// The lexicographic order of byte strings is reflexive, antisymmetric, transitive and total.
proof fn lemma_bytes_le_order(a: Seq<u8>, b: Seq<u8>, c: Seq<u8>)
    ensures
        bytes_le(a, a),
        bytes_le(a, b) || bytes_le(b, a),
        bytes_le(a, b) && bytes_le(b, a) ==> a == b,
        bytes_le(a, b) && bytes_le(b, c) ==> bytes_le(a, c),
    decreases a.len(),
{
    if a.len() > 0 {
        lemma_bytes_le_order(a.drop_first(), a.drop_first(), a.drop_first());
        if b.len() > 0 {
            if c.len() > 0 {
                lemma_bytes_le_order(a.drop_first(), b.drop_first(), c.drop_first());
            } else {
                lemma_bytes_le_order(a.drop_first(), b.drop_first(), c);
            }
            if a[0] == b[0] && bytes_le(a, b) && bytes_le(b, a) {
                assert(a =~= seq![a[0]] + a.drop_first());
                assert(b =~= seq![b[0]] + b.drop_first());
            }
        }
    } else if b.len() == 0 {
        assert(a =~= b);
    }
}

/// Labels ordered by their UTF-8 encodings form a total order.
proof fn lemma_label_le_total()
    ensures
        vstd::relations::total_ordering(|a: Seq<char>, b: Seq<char>| label_le(a, b)),
{
    let r = |a: Seq<char>, b: Seq<char>| label_le(a, b);
    assert forall|x: Seq<char>| #[trigger] r(x, x) by {
        lemma_bytes_le_order(encode_utf8(x), encode_utf8(x), encode_utf8(x));
    }
    assert forall|x: Seq<char>, y: Seq<char>| #[trigger] r(x, y) && #[trigger] r(y, x) implies x == y by {
        lemma_bytes_le_order(encode_utf8(x), encode_utf8(y), encode_utf8(y));
        encode_utf8_decode_utf8(x);
        encode_utf8_decode_utf8(y);
    }
    assert forall|x: Seq<char>, y: Seq<char>, z: Seq<char>| #[trigger] r(x, y) && #[trigger] r(y, z) implies r(x, z) by {
        lemma_bytes_le_order(encode_utf8(x), encode_utf8(y), encode_utf8(z));
    }
    assert forall|x: Seq<char>, y: Seq<char>| #[trigger] r(x, y) || #[trigger] r(y, x) by {
        lemma_bytes_le_order(encode_utf8(x), encode_utf8(y), encode_utf8(y));
    }
}

/// `slice::sort` on strings: std documents a sort that leaves the elements' multiset
/// unchanged and orders them by `Ord`, which for `String` is the lexicographic order of
/// the UTF-8 bytes.
#[verifier::external_body]
fn sort_strings(v: &mut Vec<String>)
    ensures
        string_views(final(v)@).to_multiset() == string_views(old(v)@).to_multiset(),
        sorted_labels(string_views(final(v)@)),
{
    v.sort();
}

/// The one-line description of a furthest failure: what was expected (in sorted order) and
/// where.
pub open spec fn display_view(sorted: Seq<Seq<char>>, span: (usize, usize)) -> Seq<char> {
    (if sorted.len() == 0 {
        "unexpected token"@
    } else if sorted.len() == 1 {
        "expected "@ + sorted[0]
    } else {
        "expected one of "@ + join(sorted, ", "@)
    }) + " at "@ + decimal(span.0 as nat) + ".."@ + decimal(span.1 as nat)
}

/// `sorted` holds the labels of `expected`, sorted.
pub open spec fn is_sorted_labels_of(sorted: Seq<Seq<char>>, expected: Seq<Seq<char>>) -> bool {
    sorted.to_multiset() == expected.to_multiset() && sorted_labels(sorted)
}

/// The labels of `expected` in ascending order of their UTF-8 encodings.
pub open spec fn sorted_labels_of(expected: Seq<Seq<char>>) -> Seq<Seq<char>> {
    choose|sorted: Seq<Seq<char>>| is_sorted_labels_of(sorted, expected)
}

/// There is only one way to sort labels: two sorted lists holding the same labels are equal.
pub proof fn lemma_sorted_labels_unique(a: Seq<Seq<char>>, b: Seq<Seq<char>>, expected: Seq<Seq<char>>)
    requires
        is_sorted_labels_of(a, expected),
        is_sorted_labels_of(b, expected),
    ensures
        a == b,
{
    let r = |x: Seq<char>, y: Seq<char>| label_le(x, y);
    lemma_label_le_total();
    assert(vstd::relations::sorted_by(a, r));
    assert(vstd::relations::sorted_by(b, r));
    vstd::seq_lib::lemma_sorted_unique(a, b, r);
}

impl FurthestFailError {
    /// A one-line description: "expected one of A, B at 10..15" with the expected labels
    /// sorted, "expected A at ..." for one label, "unexpected token at ..." for none.
    pub fn to_string(&self) -> (s: String)
        ensures
            s@ == display_view(sorted_labels_of(self@.expected), self.span),
    {
        let mut out: Vec<char> = Vec::new();
        let n = self.expected.len();
        let mut sorted: Vec<String> = Vec::new();
        let mut i: usize = 0;
        while i < n
            invariant
                0 <= i <= n,
                n == self.expected@.len(),
                string_views(sorted@) == string_views(self.expected@.take(i as int)),
            decreases n - i,
        {
            let c = self.expected[i].clone();
            let ghost before = sorted@;
            sorted.push(c);
            proof {
                assert(string_views(sorted@) =~= string_views(before).push(c@));
                assert(self.expected@.take(i + 1) =~= self.expected@.take(i as int).push(self.expected@[i as int]));
            }
            i = i + 1;
            proof {
                assert(string_views(sorted@) =~= string_views(self.expected@.take(i as int)));
            }
        }
        proof {
            assert(self.expected@.take(i as int) =~= self.expected@);
        }
        if n == 0 {
            push_str(&mut out, "unexpected token");
        } else if n == 1 {
            push_str(&mut out, "expected ");
            push_str(&mut out, self.expected[0].as_str());
        } else {
            sort_strings(&mut sorted);
            push_str(&mut out, "expected one of ");
            push_joined(&mut out, &sorted, ", ");
        }
        push_str(&mut out, " at ");
        push_decimal(&mut out, self.span.0);
        push_str(&mut out, "..");
        push_decimal(&mut out, self.span.1);
        proof {
            let sv = string_views(sorted@);
            vstd::seq_lib::to_multiset_len(sv);
            vstd::seq_lib::to_multiset_len(self@.expected);
            let witness = if n == 0 {
                Seq::<Seq<char>>::empty()
            } else if n == 1 {
                seq![self@.expected[0]]
            } else {
                sv
            };
            if n == 0 {
                assert(self@.expected =~= Seq::<Seq<char>>::empty());
            } else if n == 1 {
                assert(self@.expected =~= witness);
            }
            assert(is_sorted_labels_of(witness, self@.expected));
            assert(out@ =~= display_view(witness, self.span));
            lemma_sorted_labels_unique(witness, sorted_labels_of(self@.expected), self@.expected);
        }
        string_from_chars(out)
    }
}

/// One highlighted span of a report.
pub struct ReportLabel {
    /// Highlighted byte range.
    pub span: (usize, usize),
    /// Text shown at the span.
    pub message: String,
    /// Colour of the highlight.
    pub color: ariadne::Color,
    /// Order among the labels (lower comes first).
    pub order: i32,
}

/// What an `ariadne` error report shows.
pub struct ReportPlan {
    /// Headline of the report.
    pub title: String,
    /// Primary location.
    pub span: (usize, usize),
    /// Highlighted spans, in order.
    pub labels: Vec<ReportLabel>,
    /// Notes below the report.
    pub notes: Vec<String>,
    /// Help texts below the report.
    pub help: Vec<String>,
}

/// Model of a [`ReportPlan`]; the labels' colours are given by [`report_label_colors`].
pub struct ReportPlanView {
    /// Headline.
    pub title: Seq<char>,
    /// Primary location.
    pub span: (usize, usize),
    /// Span, message and order of each label.
    pub labels: Seq<((usize, usize), Seq<char>, i32)>,
    /// Notes.
    pub notes: Seq<Seq<char>>,
    /// Help texts.
    pub help: Seq<Seq<char>>,
}

/// Span, message and order of each label.
pub open spec fn report_label_views(v: Seq<ReportLabel>) -> Seq<((usize, usize), Seq<char>, i32)> {
    v.map_values(|l: ReportLabel| (l.span, l.message@, l.order))
}

/// The colour of each label of `p`, in order.
pub open spec fn report_label_colors(p: ReportPlan) -> Seq<ariadne::Color> {
    p.labels@.map_values(|l: ReportLabel| l.color)
}

impl View for ReportPlan {
    type V = ReportPlanView;

    open spec fn view(&self) -> ReportPlanView {
        ReportPlanView {
            title: self.title@,
            span: self.span,
            labels: report_label_views(self.labels@),
            notes: string_views(self.notes@),
            help: string_views(self.help@),
        }
    }
}

/// `ariadne::Color::Red`, the colour of a report's primary label.
#[verifier::external_body]
fn color_red() -> (c: ariadne::Color) {
    ariadne::Color::Red
}

/// A copy of a list of strings.
fn clone_strings(v: &Vec<String>) -> (r: Vec<String>)
    ensures
        string_views(r@) == string_views(v@),
{
    let mut r: Vec<String> = Vec::new();
    let mut i: usize = 0;
    while i < v.len()
        invariant
            0 <= i <= v@.len(),
            string_views(r@) == string_views(v@.take(i as int)),
        decreases v@.len() - i,
    {
        let c = v[i].clone();
        let ghost before = r@;
        r.push(c);
        proof {
            assert(string_views(r@) =~= string_views(before).push(c@));
            assert(v@.take(i + 1) =~= v@.take(i as int).push(v@[i as int]));
        }
        i = i + 1;
    }
    proof {
        assert(v@.take(i as int) =~= v@);
    }
    r
}

/// A string holding the characters of a literal.
fn string_of(s: &str) -> (r: String)
    ensures
        r@ == s@,
{
    s.to_owned()
}

/// The report plan of a furthest failure.
pub open spec fn furthest_fail_plan(e: FurthestFailView, main: Seq<char>) -> ReportPlanView {
    ReportPlanView {
        title: "Syntax Error"@,
        span: e.span,
        labels: seq![(e.span, main, e.span.0 as i32)] + e.extra_labels.map_values(
            |l: ((usize, usize), Seq<char>)| (l.0, l.1, l.0.0 as i32),
        ),
        notes: e.notes,
        help: e.help,
    }
}

/// The report plan of a single-label error with `title`.
pub open spec fn single_label_plan(title: Seq<char>, span: (usize, usize), message: Seq<char>) -> ReportPlanView {
    ReportPlanView {
        title,
        span,
        labels: seq![(span, message, span.0 as i32)],
        notes: Seq::empty(),
        help: Seq::empty(),
    }
}

impl FurthestFailError {
    /// What the report of this error shows against `source_text`: the title "Syntax Error",
    /// a label at the span with [`FurthestFailError::main_message`], the extra labels, the
    /// notes and the help texts. The primary label is red; each extra label keeps its colour.
    pub fn report_plan(&self, source_text: &str) -> (p: ReportPlan)
        ensures
            p@ == furthest_fail_plan(
                self@,
                main_message_view(self@.expected, found_text(source_text, self.span)),
            ),
            report_label_colors(p).drop_first() == extra_label_colors(*self),
    {
        let main = self.main_message(source_text);
        let mut labels: Vec<ReportLabel> = Vec::new();
        labels.push(ReportLabel { span: self.span, message: main, color: color_red(), order: self.span.0 as i32 });
        let ghost extra = self@.extra_labels;
        let mut i: usize = 0;
        while i < self.annotations.extra_labels.len()
            invariant
                0 <= i <= extra.len(),
                extra == extra_label_views(self.annotations.extra_labels@),
                report_label_views(labels@) == seq![(self.span, main@, self.span.0 as i32)] + extra.take(
                    i as int,
                ).map_values(|l: ((usize, usize), Seq<char>)| (l.0, l.1, l.0.0 as i32)),
                labels@.len() >= 1,
                labels@.drop_first().map_values(|l: ReportLabel| l.color) == extra_label_colors(*self).take(i as int),
            decreases extra.len() - i,
        {
            let l = &self.annotations.extra_labels[i];
            let ghost before = labels@;
            labels.push(ReportLabel { span: l.span, message: l.message.clone(), color: l.color, order: l.span.0 as i32 });
            i = i + 1;
            proof {
                assert(extra.take(i as int) =~= extra.take(i - 1).push(extra[i - 1]));
                assert(report_label_views(labels@) =~= report_label_views(before).push(
                    (l.span, l.message@, l.span.0 as i32),
                ));
                assert(labels@.drop_first() =~= before.drop_first().push(labels@.last()));
                assert(extra_label_colors(*self).take(i as int) =~= extra_label_colors(*self).take(i - 1).push(
                    l.color,
                ));
            }
        }
        proof {
            assert(extra.take(i as int) =~= extra);
            assert(extra_label_colors(*self).take(i as int) =~= extra_label_colors(*self));
        }
        let p = ReportPlan {
            title: string_of("Syntax Error"),
            span: self.span,
            labels,
            notes: clone_strings(&self.annotations.notes),
            help: clone_strings(&self.annotations.help),
        };
        proof {
            assert(p@.labels =~= furthest_fail_plan(
                self@,
                main_message_view(self@.expected, found_text(source_text, self.span)),
            ).labels);
        }
        p
    }
}

/// A report plan with one label at `span` showing `message` under `title`.
fn single_label_report(title: &str, span: (usize, usize), message: &String) -> (p: ReportPlan)
    ensures
        p@ == single_label_plan(title@, span, message@),
{
    let mut labels: Vec<ReportLabel> = Vec::new();
    labels.push(ReportLabel { span, message: message.clone(), color: color_red(), order: span.0 as i32 });
    let p = ReportPlan { title: string_of(title), span, labels, notes: Vec::new(), help: Vec::new() };
    proof {
        assert(p@.labels =~= single_label_plan(title@, span, message@).labels);
        assert(p@.notes =~= Seq::<Seq<char>>::empty());
        assert(p@.help =~= Seq::<Seq<char>>::empty());
    }
    p
}

impl MissingError {
    /// What the report of this error shows: the title "Missing Syntax" and a label at the
    /// span with the message.
    pub fn report_plan(&self) -> (p: ReportPlan)
        ensures
            p@ == single_label_plan("Missing Syntax"@, self.span, self.message@),
    {
        single_label_report("Missing Syntax", self.span, &self.message)
    }
}

impl UnwantedError {
    /// What the report of this error shows: the title "Unwanted Syntax" and a label at the
    /// span with the message.
    pub fn report_plan(&self) -> (p: ReportPlan)
        ensures
            p@ == single_label_plan("Unwanted Syntax"@, self.span, self.message@),
    {
        single_label_report("Unwanted Syntax", self.span, &self.message)
    }
}

impl ParserError {
    /// What the report of this diagnostic shows against `source_text`.
    pub fn report_plan(&self, source_text: &str) -> (p: ReportPlan)
        ensures
            p@ == match self {
                ParserError::FurthestFail(e) => furthest_fail_plan(
                    e@,
                    main_message_view(e@.expected, found_text(source_text, e.span)),
                ),
                ParserError::Missing(e) => single_label_plan("Missing Syntax"@, e.span, e.message@),
                ParserError::Unwanted(e) => single_label_plan("Unwanted Syntax"@, e.span, e.message@),
            },
            self matches ParserError::FurthestFail(e) ==> report_label_colors(p).drop_first()
                == extra_label_colors(*e),
    {
        match self {
            ParserError::FurthestFail(e) => e.report_plan(source_text),
            ParserError::Missing(e) => e.report_plan(),
            ParserError::Unwanted(e) => e.report_plan(),
        }
    }
}

/// One labelled span of a `miette` report.
pub struct MietteLabel {
    /// Highlighted byte range.
    pub span: (usize, usize),
    /// Text shown at the span.
    pub message: String,
}

/// What a `miette` report of a furthest failure shows.
pub struct MietteParts {
    /// Headline.
    pub message: String,
    /// The primary label.
    pub primary: MietteLabel,
    /// Further labels.
    pub others: Vec<MietteLabel>,
    /// Notes and help texts joined into one help text, where there is any text.
    pub help: Option<String>,
}

/// Model of [`MietteParts`].
pub struct MiettePartsView {
    /// Headline.
    pub message: Seq<char>,
    /// The primary label: span and text.
    pub primary: ((usize, usize), Seq<char>),
    /// Further labels: span and text.
    pub others: Seq<((usize, usize), Seq<char>)>,
    /// The help text.
    pub help: Option<Seq<char>>,
}

/// Span and text of each label.
pub open spec fn miette_label_views(v: Seq<MietteLabel>) -> Seq<((usize, usize), Seq<char>)> {
    v.map_values(|l: MietteLabel| (l.span, l.message@))
}

impl View for MietteParts {
    type V = MiettePartsView;

    open spec fn view(&self) -> MiettePartsView {
        MiettePartsView {
            message: self.message@,
            primary: (self.primary.span, self.primary.message@),
            others: miette_label_views(self.others@),
            help: match self.help {
                Some(h) => Some(h@),
                None => None,
            },
        }
    }
}

/// The help text of a `miette` report: each note as "note: ...", then the help texts, one
/// per line; no help text where that is empty.
pub open spec fn miette_help(e: FurthestFailView) -> Option<Seq<char>> {
    let text = join(e.notes.map_values(|n: Seq<char>| "note: "@ + n) + e.help, "\n"@);
    if text.len() == 0 {
        None
    } else {
        Some(text)
    }
}

/// The parts of the `miette` report of a furthest failure.
pub open spec fn miette_parts_view(e: FurthestFailView, main: Seq<char>) -> MiettePartsView {
    MiettePartsView {
        message: "Syntax Error"@,
        primary: (e.span, main),
        others: e.extra_labels,
        help: miette_help(e),
    }
}

/// `miette` can render a label at `span` against a source of `len` bytes: every span but an
/// empty one (its end at or before its start) that starts one byte past the end. For that
/// one, a read with one line of context succeeds while the read without context slices the
/// source from `len + 1` to `len`, which panics.
pub open spec fn miette_span_ok(span: (usize, usize), len: nat) -> bool {
    !(span.0 == len + 1 && span.1 <= span.0)
}

/// Render `parts` with `miette`'s graphical handler (one line of context) into `out`,
/// with the source named `source_id`: the primary label through
/// `LabeledSpan::new_primary_with_span`, the others through `LabeledSpan::at`, the help text
/// on the `MietteDiagnostic`, and `NamedSource` for the source. The rendering depends on
/// whether stdout and stderr are terminals, on `NO_COLOR` and on the terminal's width, so
/// nothing is stated of its text but that it is appended to `out` and is not empty (the
/// handler always writes the diagnostic's message line, ended by a newline). A label that
/// does not lie inside the source is rendered as a line saying that its contents could not
/// be read, and an inverted span counts as empty; the one span that makes the rendering
/// panic is excluded by the `requires` (see [`miette_span_ok`]).
#[verifier::external_body]
fn render_miette(out: &mut String, parts: &MietteParts, source_id: &str, source_text: &str)
    requires
        miette_span_ok(parts.primary.span, source_text.spec_bytes().len()),
        forall|i: int|
            0 <= i < parts@.others.len() ==> miette_span_ok(
                (#[trigger] parts@.others[i]).0,
                source_text.spec_bytes().len(),
            ),
    ensures
        old(out)@.is_prefix_of(final(out)@),
        final(out)@.len() > old(out)@.len(),
{
    let mut labels = vec![miette::LabeledSpan::new_primary_with_span(
        Some(parts.primary.message.clone()),
        parts.primary.span.0..parts.primary.span.1,
    )];
    labels.extend(parts.others.iter().map(|l| miette::LabeledSpan::at(l.span.0..l.span.1, l.message.clone())));
    let mut diag = miette::MietteDiagnostic::new(parts.message.clone()).with_labels(labels);
    diag.help = parts.help.clone();
    let source = miette::NamedSource::new(source_id, source_text.to_string());
    let report = miette::Report::new(diag).with_source_code(source);
    miette::GraphicalReportHandler::new().with_context_lines(1).render_report(out, report.as_ref()).unwrap();
}

impl FurthestFailError {
    /// What the `miette` report of this error shows against `source_text`: the headline
    /// "Syntax Error", a primary label with [`FurthestFailError::main_message`], the extra
    /// labels, and the notes and help texts as one help text.
    pub fn miette_parts(&self, source_text: &str) -> (p: MietteParts)
        ensures
            p@ == miette_parts_view(self@, main_message_view(self@.expected, found_text(source_text, self.span))),
    {
        let main = self.main_message(source_text);
        let mut others: Vec<MietteLabel> = Vec::new();
        let ghost extra = self@.extra_labels;
        let mut i: usize = 0;
        while i < self.annotations.extra_labels.len()
            invariant
                0 <= i <= extra.len(),
                extra == extra_label_views(self.annotations.extra_labels@),
                miette_label_views(others@) == extra.take(i as int),
            decreases extra.len() - i,
        {
            let l = &self.annotations.extra_labels[i];
            let ghost before = others@;
            others.push(MietteLabel { span: l.span, message: l.message.clone() });
            i = i + 1;
            proof {
                assert(extra.take(i as int) =~= extra.take(i - 1).push(extra[i - 1]));
                assert(miette_label_views(others@) =~= miette_label_views(before).push((l.span, l.message@)));
            }
        }
        proof {
            assert(extra.take(i as int) =~= extra);
        }
        let mut items: Vec<String> = Vec::new();
        let ghost notes = self@.notes;
        let mut k: usize = 0;
        while k < self.annotations.notes.len()
            invariant
                0 <= k <= notes.len(),
                notes == string_views(self.annotations.notes@),
                string_views(items@) == notes.take(k as int).map_values(|n: Seq<char>| "note: "@ + n),
            decreases notes.len() - k,
        {
            let mut line: Vec<char> = Vec::new();
            push_str(&mut line, "note: ");
            push_str(&mut line, self.annotations.notes[k].as_str());
            let item = string_from_chars(line);
            let ghost before = items@;
            items.push(item);
            k = k + 1;
            proof {
                assert(notes.take(k as int) =~= notes.take(k - 1).push(notes[k - 1]));
                assert(string_views(items@) =~= string_views(before).push(item@));
            }
        }
        let ghost helps = self@.help;
        let mut k: usize = 0;
        while k < self.annotations.help.len()
            invariant
                0 <= k <= helps.len(),
                helps == string_views(self.annotations.help@),
                string_views(items@) == notes.map_values(|n: Seq<char>| "note: "@ + n) + helps.take(k as int),
                notes == self@.notes,
            decreases helps.len() - k,
        {
            let item = self.annotations.help[k].clone();
            let ghost before = items@;
            items.push(item);
            k = k + 1;
            proof {
                assert(helps.take(k as int) =~= helps.take(k - 1).push(helps[k - 1]));
                assert(string_views(items@) =~= string_views(before).push(item@));
            }
        }
        proof {
            assert(notes.take(notes.len() as int) =~= notes);
            assert(helps.take(k as int) =~= helps);
        }
        let mut text: Vec<char> = Vec::new();
        push_joined(&mut text, &items, "\n");
        let help = if text.len() == 0 {
            None
        } else {
            Some(string_from_chars(text))
        };
        let p = MietteParts {
            message: string_of("Syntax Error"),
            primary: MietteLabel { span: self.span, message: main },
            others,
            help,
        };
        p
    }
}

impl FurthestFailError {
    /// Render the `miette` report of this error against `source_text`, named `source_id`,
    /// into `out` (see [`FurthestFailError::miette_parts`]); what is appended is never empty.
    /// No span may be empty and start one byte past the end of the source (see
    /// [`miette_span_ok`]): the rendering panics there.
    pub fn render_miette_into(&self, out: &mut String, source_id: &str, source_text: &str)
        requires
            miette_span_ok(self.span, source_text.spec_bytes().len()),
            forall|i: int|
                0 <= i < self@.extra_labels.len() ==> miette_span_ok(
                    (#[trigger] self@.extra_labels[i]).0,
                    source_text.spec_bytes().len(),
                ),
        ensures
            old(out)@.is_prefix_of(final(out)@),
            final(out)@.len() > old(out)@.len(),
    {
        let parts = self.miette_parts(source_text);
        render_miette(out, &parts, source_id, source_text);
    }
}

} // verus!
