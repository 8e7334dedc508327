//! Compile errors: what went wrong and where, and how a report of it reads.
use vstd::prelude::*;

use ariadne::{Color, Label, Report, ReportKind, Source};

use crate::frontend::parsers::common::{ContextMsg, Expectation, ParseError};
use crate::text::{
    extend_chars, extend_vec, join_chars, lemma_utf8_len_concat, seq_join, string_from_chars,
    utf8_len, utf8_len_of, vecs_view,
};

pub mod builder;

verus! {

/// How serious a report is.
#[derive(Clone, Copy, Debug, PartialEq, Eq)]
pub enum Severity {
    Error,
    Warning,
    Advice,
}

/// The highlight colour of a label.
#[derive(Clone, Copy, Debug, PartialEq, Eq)]
pub enum LabelColor {
    Primary,
    Red,
}

/// A labelled range of the source, in byte offsets (as `str` indexes it).
#[derive(Clone, Debug)]
pub struct ErrorLabel {
    pub start: usize,
    pub end: usize,
    pub message: String,
    pub color: Option<LabelColor>,
}

/// A compile error: its kind, a one-line summary, the position it is
/// reported at, labelled ranges of the source, and the constructs that were
/// being parsed when it happened. Positions are byte offsets into the
/// source.
#[derive(Clone, Debug)]
pub struct CompileError {
    pub kind: Severity,
    pub summary: String,
    pub location: usize,
    pub labels: Vec<ErrorLabel>,
    pub context: Vec<(usize, String)>,
}

/// A label as plain values: start, end, message, colour.
pub type SpecLabel = (usize, usize, Seq<char>, Option<LabelColor>);

/// The mathematical form of a [`CompileError`].
pub struct SpecCompileError {
    pub kind: Severity,
    pub summary: Seq<char>,
    pub location: usize,
    pub labels: Seq<SpecLabel>,
    pub context: Seq<(usize, Seq<char>)>,
}

pub open spec fn labels_view(v: Seq<ErrorLabel>) -> Seq<SpecLabel> {
    Seq::new(v.len(), |i: int| (v[i].start, v[i].end, v[i].message@, v[i].color))
}

pub open spec fn context_view(v: Seq<(usize, String)>) -> Seq<(usize, Seq<char>)> {
    Seq::new(v.len(), |i: int| (v[i].0, v[i].1@))
}

impl View for CompileError {
    type V = SpecCompileError;

    open spec fn view(&self) -> SpecCompileError {
        SpecCompileError {
            kind: self.kind,
            summary: self.summary@,
            location: self.location,
            labels: labels_view(self.labels@),
            context: context_view(self.context@),
        }
    }
}

/// Every label's range runs forwards.
pub open spec fn labels_wf(v: Seq<SpecLabel>) -> bool {
    forall|i: int| 0 <= i < v.len() ==> (#[trigger] v[i]).0 <= v[i].1
}

/// Renders a report with ariadne, in its default configuration:
/// `Report::build` with `kind` and the position `location..location` in
/// `filename`, `with_message(summary)`, `with_labels` of one `Label::new`
/// per label with its message and, where it has one, its colour, `finish`,
/// then `write` with `Source::from(source)` into a buffer. Nothing is
/// stated of the text: with colour on, ariadne draws it with or without
/// colour codes as the terminal support that `yansi` detects decides, so
/// it is not a function of these arguments alone. `Label::new` panics on a
/// backwards range, which the precondition excludes. Writing into a byte
/// buffer does not fail, and the text written is UTF-8, so neither `unwrap`
/// panics.
#[verifier::external_body]
fn render_report(
    kind: Severity,
    filename: &str,
    source: &str,
    location: usize,
    summary: &str,
    labels: &Vec<ErrorLabel>,
) -> (r: String)
    requires
        labels_wf(labels_view(labels@)),
{
    let kind = match kind { Severity::Error => ReportKind::Error, Severity::Warning => ReportKind::Warning, Severity::Advice => ReportKind::Advice };
    let labels = labels.iter().map(|l| {
        let label = Label::new((filename, l.start..l.end)).with_message(&l.message);
        match l.color { Some(LabelColor::Primary) => label.with_color(Color::Primary), Some(LabelColor::Red) => label.with_color(Color::Red), None => label }
    });
    let mut buf: Vec<u8> = Vec::new();
    Report::build(kind, (filename, location..location)).with_message(summary).with_labels(labels).finish().write((filename, Source::from(source)), &mut buf).unwrap();
    String::from_utf8(buf).unwrap()
}

pub open spec fn context_text(m: ContextMsg) -> Seq<char> {
    match m {
        ContextMsg::Type => "a type"@,
        ContextMsg::BasicType => "a basic type (int, bool, char or string)"@,
        ContextMsg::ParameterType => "function parameter to be given a type"@,
    }
}

/// How an expectation reads in a message.
pub open spec fn expectation_text(e: Expectation) -> Seq<char> {
    match e {
        Expectation::Char(c) => seq!['\'', c, '\''],
        Expectation::Tag(t) => seq!['"'] + t.spec_text() + seq!['"'],
        Expectation::Digit => "an ascii digit"@,
        Expectation::Something => "not eof"@,
        Expectation::Context(m) => context_text(m),
    }
}

/// The summary and the label message for "expected this, found that".
pub open spec fn spec_expectation_format(expected: Seq<char>, found: Seq<char>) -> (
    Seq<char>,
    Seq<char>,
) {
    (
        "Expected "@ + expected + " but found "@ + found + " instead"@,
        "Expected "@ + expected + " here"@,
    )
}

/// The error reported when `expected` was missing at the byte offset
/// `location`, where the rest of the input from there on is `fragment`: the
/// label covers the fragment's bytes and is red. Positions are byte offsets
/// into the source, as `str` indexes it.
pub open spec fn spec_tree_base(location: usize, fragment: Seq<char>, expected: Seq<char>) -> SpecCompileError {
    let (summary, label) = spec_expectation_format(expected, fragment);
    SpecCompileError {
        kind: Severity::Error,
        summary,
        location,
        labels: seq![(location, (location + utf8_len(fragment)) as usize, label, Some(LabelColor::Red))],
        context: seq![],
    }
}

/// The error for a parse of `source` that failed at the character
/// position `pos` expecting `expected`: reported at the byte offset of that
/// position.
#[verifier::opaque]
pub open spec fn spec_parse_failure(source: Seq<char>, pos: int, expected: Expectation) -> SpecCompileError {
    spec_tree_base(
        utf8_len(source.take(pos)) as usize,
        source.subrange(pos, source.len() as int),
        expectation_text(expected),
    )
}

/// A list of items: empty, one item, up to five items as `a,b,c <ending>
/// d`, or the first four joined by `, ` followed by ` ...`.
pub open spec fn spec_format_list(items: Seq<Seq<char>>, ending: Seq<char>) -> Seq<char> {
    if items.len() == 0 {
        seq![]
    } else if items.len() == 1 {
        items[0]
    } else if items.len() - 1 <= 4 {
        seq_join(items.drop_last(), seq![',']) + seq![' '] + ending + seq![' '] + items.last()
    } else {
        seq_join(items.take(4), seq![',', ' ']) + " ..."@
    }
}

/// The default error: a blank compile error at the start of the input.
pub open spec fn spec_default_error() -> SpecCompileError {
    SpecCompileError {
        kind: Severity::Error,
        summary: "[Error] Compile Error"@,
        location: 0,
        labels: seq![],
        context: seq![],
    }
}

impl Default for CompileError {
    fn default() -> (r: Self)
        ensures
            r@ == spec_default_error(),
    {
        let r = CompileError {
            kind: Severity::Error,
            summary: String::from_str("[Error] Compile Error"),
            location: 0,
            labels: Vec::new(),
            context: Vec::new(),
        };
        assert(r@.labels =~= seq![]);
        assert(r@.context =~= seq![]);
        r
    }
}

impl CompileError {
    pub open spec fn wf(&self) -> bool {
        labels_wf(labels_view(self.labels@))
    }

    /// A blank compile error (the default one).
    pub fn blank_error() -> (r: Self)
        ensures
            r@ == spec_default_error(),
            r.wf(),
    {
        CompileError::default()
    }

    /// A compile error with the given summary and nothing else.
    pub fn raw_error(summary: String) -> (r: Self)
        ensures
            r@ == (SpecCompileError { summary: summary@, ..spec_default_error() }),
            r.wf(),
    {
        let r = CompileError {
            kind: Severity::Error,
            summary,
            location: 0,
            labels: Vec::new(),
            context: Vec::new(),
        };
        assert(r@.labels =~= seq![]);
        assert(r@.context =~= seq![]);
        r
    }

    /// The labels the report of this error is drawn with: the error's own
    /// labels, each given the primary colour where it has none, then for
    /// every context entry an uncoloured, empty label at its position
    /// reading `while parsing <context>`.
    pub fn report_labels(&self) -> (r: Vec<ErrorLabel>)
        requires
            self.wf(),
        ensures
            labels_view(r@) == report_labels(self@),
            labels_wf(labels_view(r@)),
    {
        let mut all: Vec<ErrorLabel> = Vec::new();
        let mut i: usize = 0;
        while i < self.labels.len()
            invariant
                i <= self.labels.len(),
                self.wf(),
                labels_view(all@) == report_labels(self@).take(i as int),
                all.len() == i,
            decreases self.labels.len() - i,
        {
            let l = &self.labels[i];
            let color = match l.color {
                Some(c) => c,
                None => LabelColor::Primary,
            };
            all.push(ErrorLabel { start: l.start, end: l.end, message: l.message.clone(), color: Some(color) });
            proof {
                let ghost sl = self@.labels[i as int];
                assert(sl == (l.start, l.end, l.message@, l.color));
                assert(report_labels(self@)[i as int] == (l.start, l.end, l.message@, Some(color)));
                assert(labels_view(all@)[i as int] == (l.start, l.end, l.message@, Some(color)));
                assert(labels_view(all@) =~= report_labels(self@).take(i + 1));
            }
            i = i + 1;
        }
        let mut j: usize = 0;
        while j < self.context.len()
            invariant
                i == self.labels.len(),
                j <= self.context.len(),
                self.wf(),
                labels_view(all@) == report_labels(self@).take(i + j),
                all.len() == i + j,
            decreases self.context.len() - j,
        {
            let (offset, ctx) = (self.context[j].0, &self.context[j].1);
            let mut msg: Vec<char> = Vec::new();
            extend_chars(&mut msg, "while parsing ");
            extend_chars(&mut msg, ctx.as_str());
            all.push(ErrorLabel { start: offset, end: offset, message: string_from_chars(msg.as_slice()), color: None });
            proof {
                assert(self@.context[j as int] == (offset, ctx@));
                assert(report_labels(self@)[i + j] == (offset, offset, msg@, None::<LabelColor>));
                assert(labels_view(all@)[i + j] == (offset, offset, msg@, None::<LabelColor>));
                assert(labels_view(all@) =~= report_labels(self@).take(i + j + 1));
            }
            j = j + 1;
        }
        proof {
            assert(report_labels(self@).take(i + j) =~= report_labels(self@));
        }
        all
    }

    /// The report for this error in the file `filename` with contents
    /// `source`, as ariadne draws it: reported at the error's position with
    /// its kind and summary, and drawn with the labels of
    /// [`CompileError::report_labels`]. Whether the text holds colour codes
    /// depends on the terminal support that ariadne detects, so no more is
    /// stated of it.
    pub fn format(&self, filename: &str, source: &str) -> (r: String)
        requires
            self.wf(),
    {
        let labels = self.report_labels();
        render_report(self.kind, filename, source, self.location, self.summary.as_str(), &labels)
    }

    /// The summary and label message for "expected `expected`, found `found`".
    pub fn expectation_format(expected: &Vec<char>, found: &Vec<char>) -> (r: (String, String))
        ensures
            r.0@ == spec_expectation_format(expected@, found@).0,
            r.1@ == spec_expectation_format(expected@, found@).1,
    {
        let mut summary: Vec<char> = Vec::new();
        extend_chars(&mut summary, "Expected ");
        extend_vec(&mut summary, expected);
        extend_chars(&mut summary, " but found ");
        extend_vec(&mut summary, found);
        extend_chars(&mut summary, " instead");
        let mut label: Vec<char> = Vec::new();
        extend_chars(&mut label, "Expected ");
        extend_vec(&mut label, expected);
        extend_chars(&mut label, " here");
        (string_from_chars(summary.as_slice()), string_from_chars(label.as_slice()))
    }

    /// How the expectation reads in a message.
    pub fn translate_error_kind(error: Expectation) -> (r: Option<Vec<char>>)
        ensures
            r matches Some(t) && t@ == expectation_text(error),
    {
        let mut t: Vec<char> = Vec::new();
        match error {
            Expectation::Char(c) => {
                t.push('\'');
                t.push(c);
                t.push('\'');
                assert(t@ =~= seq!['\'', c, '\'']);
            },
            Expectation::Tag(tag) => {
                t.push('"');
                extend_chars(&mut t, tag.as_str());
                t.push('"');
            },
            Expectation::Digit => extend_chars(&mut t, "an ascii digit"),
            Expectation::Something => extend_chars(&mut t, "not eof"),
            Expectation::Context(m) => match m {
                ContextMsg::Type => extend_chars(&mut t, "a type"),
                ContextMsg::BasicType => extend_chars(
                    &mut t,
                    "a basic type (int, bool, char or string)",
                ),
                ContextMsg::ParameterType => extend_chars(
                    &mut t,
                    "function parameter to be given a type",
                ),
            },
        }
        Some(t)
    }

    /// The error for a missing `expected` at the byte offset `location`,
    /// where `fragment` is the rest of the input from there on.
    pub fn tree_base(location: usize, fragment: &Vec<char>, expected: Expectation) -> (r: Self)
        requires
            location + utf8_len(fragment@) <= usize::MAX,
        ensures
            r@ == spec_tree_base(location, fragment@, expectation_text(expected)),
            r.wf(),
    {
        let text = match Self::translate_error_kind(expected) {
            Some(t) => t,
            None => Vec::new(),
        };
        let (summary, label) = Self::expectation_format(&text, fragment);
        assert(fragment@.subrange(0, fragment@.len() as int) =~= fragment@);
        let width = utf8_len_of(fragment, 0, fragment.len());
        let mut labels: Vec<ErrorLabel> = Vec::new();
        labels.push(
            ErrorLabel {
                start: location,
                end: location + width,
                message: label,
                color: Some(LabelColor::Red),
            },
        );
        let r = CompileError {
            kind: Severity::Error,
            summary,
            location,
            labels,
            context: Vec::new(),
        };
        assert(r@.labels =~= spec_tree_base(location, fragment@, expectation_text(expected)).labels);
        assert(r@.context =~= seq![]);
        r
    }

    /// The error for a failed parse of `source`, reported at the byte
    /// offset of the position where it failed.
    pub fn from_parse_error(error: &ParseError, source: &Vec<char>) -> (r: Self)
        requires
            error.pos <= source.len(),
            utf8_len(source@) <= usize::MAX,
        ensures
            r@ == spec_parse_failure(source@, error.pos as int, error.expected),
            r.wf(),
    {
        reveal(spec_parse_failure);
        let (location, fragment) = Self::locate(source, error.pos);
        Self::tree_base(location, &fragment, error.expected)
    }

    /// The byte offset of the character position `pos` in `source`, and the
    /// rest of `source` from there on.
    fn locate(source: &Vec<char>, pos: usize) -> (r: (usize, Vec<char>))
        requires
            pos <= source.len(),
            utf8_len(source@) <= usize::MAX,
        ensures
            r.0 == utf8_len(source@.take(pos as int)),
            r.1@ == source@.subrange(pos as int, source.len() as int),
            r.0 + utf8_len(r.1@) == utf8_len(source@),
    {
        proof {
            assert(source@ =~= source@.take(pos as int) + source@.subrange(pos as int, source.len() as int));
            lemma_utf8_len_concat(source@.take(pos as int), source@.subrange(pos as int, source.len() as int));
            assert(source@.subrange(0, pos as int) =~= source@.take(pos as int));
        }
        let location = utf8_len_of(source, 0, pos);
        let mut fragment: Vec<char> = Vec::new();
        let mut i = pos;
        while i < source.len()
            invariant
                pos <= i <= source.len(),
                fragment@ == source@.subrange(pos as int, i as int),
            decreases source.len() - i,
        {
            fragment.push(source[i]);
            i = i + 1;
            assert(fragment@ == source@.subrange(pos as int, i as int));
        }
        (location, fragment)
    }

    /// A list of items for a message, joined with `ending` before the last.
    pub fn format_list(items: &Vec<Vec<char>>, ending: &str) -> (r: Vec<char>)
        ensures
            r@ == spec_format_list(vecs_view(items@), ending@),
    {
        let n = items.len();
        let ghost iv = vecs_view(items@);
        if n == 0 {
            Vec::new()
        } else if n == 1 {
            let mut r = Vec::new();
            extend_vec(&mut r, &items[0]);
            r
        } else if n - 1 <= 4 {
            let mut comma: Vec<char> = Vec::new();
            comma.push(',');
            let mut r = join_chars(items, n - 1, &comma);
            assert(iv.take(n - 1) =~= iv.drop_last());
            r.push(' ');
            extend_chars(&mut r, ending);
            r.push(' ');
            extend_vec(&mut r, &items[n - 1]);
            assert(r@ =~= spec_format_list(iv, ending@));
            r
        } else {
            let mut sep: Vec<char> = Vec::new();
            sep.push(',');
            sep.push(' ');
            let mut r = join_chars(items, 4, &sep);
            assert(sep@ =~= seq![',', ' ']);
            extend_chars(&mut r, " ...");
            r
        }
    }

    /// The error for a parse that failed in every one of several
    /// alternatives, each given by the character position where it failed
    /// and what it expected: reported at the byte offset of the first
    /// alternative's position, listing what each alternative expected.
    pub fn tree_alt(alts: &Vec<(usize, Expectation)>, source: &Vec<char>) -> (r: Self)
        requires
            alts.len() > 0,
            alts[0].0 <= source.len(),
            utf8_len(source@) <= usize::MAX,
        ensures
            r@ == spec_tree_alt(alts@, source@),
            r.wf(),
    {
        let mut texts: Vec<Vec<char>> = Vec::new();
        let mut i: usize = 0;
        while i < alts.len()
            invariant
                i <= alts.len(),
                vecs_view(texts@) == alts_texts(alts@).take(i as int),
                texts.len() == i,
            decreases alts.len() - i,
        {
            let t = match Self::translate_error_kind(alts[i].1) {
                Some(t) => t,
                None => Vec::new(),
            };
            texts.push(t);
            assert(vecs_view(texts@)[i as int] == alts_texts(alts@)[i as int]);
            assert(vecs_view(texts@) =~= alts_texts(alts@).take(i + 1));
            i = i + 1;
        }
        assert(alts_texts(alts@).take(i as int) =~= alts_texts(alts@));
        let listed = Self::format_list(&texts, "or");
        let (location, fragment) = Self::locate(source, alts[0].0);
        let (summary, label) = Self::expectation_format(&listed, &fragment);
        assert(fragment@.subrange(0, fragment@.len() as int) =~= fragment@);
        let width = utf8_len_of(&fragment, 0, fragment.len());
        let mut labels: Vec<ErrorLabel> = Vec::new();
        labels.push(
            ErrorLabel {
                start: location,
                end: location + width,
                message: label,
                color: Some(LabelColor::Red),
            },
        );
        let r = CompileError {
            kind: Severity::Error,
            summary,
            location,
            labels,
            context: Vec::new(),
        };
        assert(r@.labels =~= spec_tree_alt(alts@, source@).labels);
        assert(r@.context =~= seq![]);
        r
    }
}

/// The texts of what each alternative expected.
pub open spec fn alts_texts(alts: Seq<(usize, Expectation)>) -> Seq<Seq<char>> {
    Seq::new(alts.len(), |i: int| expectation_text(alts[i].1))
}

/// The error for alternatives that all failed: what they expected, listed
/// with `or`, reported like a single failure at the byte offset of the
/// first one's position.
pub open spec fn spec_tree_alt(alts: Seq<(usize, Expectation)>, source: Seq<char>) -> SpecCompileError {
    let pos = alts[0].0 as int;
    let location = utf8_len(source.take(pos)) as usize;
    let fragment = source.subrange(pos, source.len() as int);
    let (summary, label) = spec_expectation_format(
        spec_format_list(alts_texts(alts), "or"@),
        fragment,
    );
    SpecCompileError {
        kind: Severity::Error,
        summary,
        location,
        labels: seq![(location, (location + utf8_len(fragment)) as usize, label, Some(LabelColor::Red))],
        context: seq![],
    }
}

/// The labels a report is rendered with: the error's own labels, coloured
/// (primary where they have no colour), then one uncoloured label per
/// context entry.
pub open spec fn report_labels(e: SpecCompileError) -> Seq<SpecLabel> {
    Seq::new(
        e.labels.len(),
        |i: int|
            (
                e.labels[i].0,
                e.labels[i].1,
                e.labels[i].2,
                Some(
                    match e.labels[i].3 {
                        Some(c) => c,
                        None => LabelColor::Primary,
                    },
                ),
            ),
    ) + Seq::new(
        e.context.len(),
        |j: int| (e.context[j].0, e.context[j].0, "while parsing "@ + e.context[j].1, None),
    )
}

} // verus!
