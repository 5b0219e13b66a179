use vstd::prelude::*;

use crate::order::{is_stable_sort_of, stable_sort, str_le, str_less, views, TotalPreorder};
use crate::text::{decimal, push_str, push_usize, str_eq, to_owned_string};

verus! {

/// How serious a diagnostic is.
#[derive(Debug, Clone, Copy, PartialEq, Eq, Structural, PartialOrd, Ord)]
pub enum Severity {
    Error,
    Warning,
    Info,
}

/// A source region, 1-based lines and columns.
#[derive(Debug, Clone, Copy, PartialEq, Eq, Structural, PartialOrd, Ord, Default)]
pub struct Span {
    pub line_start: usize,
    pub col_start: usize,
    pub line_end: usize,
    pub col_end: usize,
}

impl Span {
    pub fn new(line_start: usize, col_start: usize, line_end: usize, col_end: usize) -> (r: Self)
        ensures
            r == (Span { line_start, col_start, line_end, col_end }),
    {
        Span { line_start, col_start, line_end, col_end }
    }
}

/// A secondary location attached to a diagnostic.
#[derive(Debug, Clone, PartialEq, Eq)]
pub struct RelatedSpan {
    pub message: String,
    pub span: Span,
}

/// One compiler message.
#[derive(Debug, Clone, PartialEq, Eq)]
pub struct Diagnostic {
    pub code: String,
    pub severity: Severity,
    pub message: String,
    pub span: Span,
    pub related: Vec<RelatedSpan>,
}

/// A related span as a mathematical value.
pub struct RelatedSpanView {
    pub message: Seq<char>,
    pub span: Span,
}

/// A diagnostic as a mathematical value.
pub struct DiagnosticView {
    pub code: Seq<char>,
    pub severity: Severity,
    pub message: Seq<char>,
    pub span: Span,
    pub related: Seq<RelatedSpanView>,
}

impl View for RelatedSpan {
    type V = RelatedSpanView;

    open spec fn view(&self) -> RelatedSpanView {
        RelatedSpanView { message: self.message@, span: self.span }
    }
}

impl View for Diagnostic {
    type V = DiagnosticView;

    open spec fn view(&self) -> DiagnosticView {
        DiagnosticView {
            code: self.code@,
            severity: self.severity,
            message: self.message@,
            span: self.span,
            related: views(self.related@),
        }
    }
}

impl Diagnostic {
    pub fn new(code: &str, severity: Severity, message: &str, span: Span) -> (r: Self)
        ensures
            r@ == (DiagnosticView {
                code: code@,
                severity,
                message: message@,
                span,
                related: Seq::empty(),
            }),
    {
        let r = Diagnostic {
            code: to_owned_string(code),
            severity,
            message: to_owned_string(message),
            span,
            related: Vec::new(),
        };
        assert(views(r.related@) =~= Seq::<RelatedSpanView>::empty());
        r
    }

    /// Attaches a related location after the existing ones.
    pub fn with_related(self, message: &str, span: Span) -> (r: Self)
        ensures
            r@ == (DiagnosticView {
                related: self@.related.push(RelatedSpanView { message: message@, span }),
                ..self@
            }),
    {
        let mut d = self;
        d.related.push(RelatedSpan { message: to_owned_string(message), span });
        assert(views(d.related@) =~= views(self.related@).push(
            RelatedSpanView { message: message@, span },
        ));
        d
    }
}

/// The rank of a severity in the ordering: errors first.
pub open spec fn severity_rank_spec(s: Severity) -> nat {
    match s {
        Severity::Error => 0,
        Severity::Warning => 1,
        Severity::Info => 2,
    }
}

fn severity_rank(s: Severity) -> (r: usize)
    ensures
        r == severity_rank_spec(s),
{
    match s {
        Severity::Error => 0,
        Severity::Warning => 1,
        Severity::Info => 2,
    }
}

/// The lowercase label of a severity, as printed in golden output.
pub open spec fn severity_label_spec(s: Severity) -> Seq<char> {
    match s {
        Severity::Error => seq!['e', 'r', 'r', 'o', 'r'],
        Severity::Warning => seq!['w', 'a', 'r', 'n', 'i', 'n', 'g'],
        Severity::Info => seq!['i', 'n', 'f', 'o'],
    }
}

impl Severity {
    /// `error`, `warning` or `info`.
    pub fn label(&self) -> (r: &'static str)
        ensures
            r@ == severity_label_spec(*self),
    {
        match self {
            Severity::Error => {
                proof {
                    reveal_strlit("error");
                }
                "error"
            },
            Severity::Warning => {
                proof {
                    reveal_strlit("warning");
                }
                "warning"
            },
            Severity::Info => {
                proof {
                    reveal_strlit("info");
                }
                "info"
            },
        }
    }
}

/// Lexicographic comparison of the host ordering key
/// (line_start, col_start, line_end, col_end, code, severity rank).
pub open spec fn host_key_le(a: DiagnosticView, b: DiagnosticView) -> bool {
    if a.span.line_start != b.span.line_start {
        a.span.line_start < b.span.line_start
    } else if a.span.col_start != b.span.col_start {
        a.span.col_start < b.span.col_start
    } else if a.span.line_end != b.span.line_end {
        a.span.line_end < b.span.line_end
    } else if a.span.col_end != b.span.col_end {
        a.span.col_end < b.span.col_end
    } else if !str_le(a.code, b.code) {
        false
    } else if !str_le(b.code, a.code) {
        true
    } else {
        severity_rank_spec(a.severity) <= severity_rank_spec(b.severity)
    }
}

/// The host ordering of diagnostics.
pub struct HostOrder;

impl TotalPreorder<Diagnostic> for HostOrder {
    open spec fn le(a: DiagnosticView, b: DiagnosticView) -> bool {
        host_key_le(a, b)
    }

    proof fn lemma_total(a: DiagnosticView, b: DiagnosticView) {
        crate::order::lemma_str_le_total(a.code, b.code);
    }

    proof fn lemma_transitive(a: DiagnosticView, b: DiagnosticView, c: DiagnosticView) {
        crate::order::lemma_str_le_total(a.code, b.code);
        crate::order::lemma_str_le_total(b.code, c.code);
        crate::order::lemma_str_le_total(a.code, c.code);
        if str_le(a.code, b.code) && str_le(b.code, c.code) {
            crate::order::lemma_str_le_transitive(a.code, b.code, c.code);
        }
        if str_le(c.code, b.code) && str_le(b.code, a.code) {
            crate::order::lemma_str_le_transitive(c.code, b.code, a.code);
        }
        if str_le(b.code, a.code) && str_le(a.code, c.code) {
            crate::order::lemma_str_le_transitive(b.code, a.code, c.code);
        }
        if str_le(a.code, c.code) && str_le(c.code, b.code) {
            crate::order::lemma_str_le_transitive(a.code, c.code, b.code);
        }
        if str_le(c.code, a.code) && str_le(a.code, b.code) {
            crate::order::lemma_str_le_transitive(c.code, a.code, b.code);
        }
        if str_le(b.code, c.code) && str_le(c.code, a.code) {
            crate::order::lemma_str_le_transitive(b.code, c.code, a.code);
        }
    }

    fn le_exec(a: &Diagnostic, b: &Diagnostic) -> (r: bool) {
        if a.span.line_start != b.span.line_start {
            a.span.line_start < b.span.line_start
        } else if a.span.col_start != b.span.col_start {
            a.span.col_start < b.span.col_start
        } else if a.span.line_end != b.span.line_end {
            a.span.line_end < b.span.line_end
        } else if a.span.col_end != b.span.col_end {
            a.span.col_end < b.span.col_end
        } else if str_less(b.code.as_str(), a.code.as_str()) {
            false
        } else if str_less(a.code.as_str(), b.code.as_str()) {
            true
        } else {
            severity_rank(a.severity) <= severity_rank(b.severity)
        }
    }
}

/// Which ordering `into_sorted` applies.
#[derive(Debug, Clone, Copy, PartialEq, Eq, Structural)]
pub enum DiagnosticsSortMode {
    Host,
    SelfhostDefault,
    HostFallback,
}

pub open spec fn sort_mode_label_spec(m: DiagnosticsSortMode) -> Seq<char> {
    match m {
        DiagnosticsSortMode::Host => seq!['h', 'o', 's', 't'],
        DiagnosticsSortMode::SelfhostDefault => seq![
            's',
            'e',
            'l',
            'f',
            'h',
            'o',
            's',
            't',
            '-',
            'd',
            'e',
            'f',
            'a',
            'u',
            'l',
            't',
        ],
        DiagnosticsSortMode::HostFallback => seq![
            'h',
            'o',
            's',
            't',
            '-',
            'f',
            'a',
            'l',
            'l',
            'b',
            'a',
            'c',
            'k',
        ],
    }
}

impl DiagnosticsSortMode {
    pub fn label(self) -> (r: &'static str)
        ensures
            r@ == sort_mode_label_spec(self),
    {
        match self {
            DiagnosticsSortMode::Host => {
                proof {
                    reveal_strlit("host");
                }
                "host"
            },
            DiagnosticsSortMode::SelfhostDefault => {
                proof {
                    reveal_strlit("selfhost-default");
                }
                "selfhost-default"
            },
            DiagnosticsSortMode::HostFallback => {
                proof {
                    reveal_strlit("host-fallback");
                }
                "host-fallback"
            },
        }
    }
}

/// The sort mode chosen from the two settings: the fallback toggle
/// (`VIBE_SELFHOST_FORCE_HOST_FALLBACK`) set to `1` wins; otherwise the mode
/// setting (`VIBE_DIAGNOSTICS_SORT_MODE`) `selfhost-default` selects the
/// selfhost mode, and anything else the host mode.
pub open spec fn sort_mode_from_spec(
    force_host_fallback: Option<Seq<char>>,
    sort_mode: Option<Seq<char>>,
) -> DiagnosticsSortMode {
    if force_host_fallback == Some(seq!['1']) {
        DiagnosticsSortMode::HostFallback
    } else if sort_mode == Some(sort_mode_label_spec(DiagnosticsSortMode::SelfhostDefault)) {
        DiagnosticsSortMode::SelfhostDefault
    } else {
        DiagnosticsSortMode::Host
    }
}

/// Chooses the sort mode from the values of the two settings (absent when unset).
pub fn diagnostics_sort_mode(
    force_host_fallback: Option<&str>,
    sort_mode: Option<&str>,
) -> (r: DiagnosticsSortMode)
    ensures
        r == sort_mode_from_spec(
            match force_host_fallback {
                Some(s) => Some(s@),
                None => None,
            },
            match sort_mode {
                Some(s) => Some(s@),
                None => None,
            },
        ),
{
    if let Some(f) = force_host_fallback {
        proof {
            reveal_strlit("1");
        }
        assert("1"@ =~= seq!['1']);
        if str_eq(f, "1") {
            return DiagnosticsSortMode::HostFallback;
        }
    }
    if let Some(m) = sort_mode {
        proof {
            reveal_strlit("selfhost-default");
        }
        assert("selfhost-default"@ =~= sort_mode_label_spec(DiagnosticsSortMode::SelfhostDefault));
        if str_eq(m, "selfhost-default") {
            return DiagnosticsSortMode::SelfhostDefault;
        }
    }
    DiagnosticsSortMode::Host
}

/// The label of the sort mode that the two settings select.
pub fn diagnostics_sort_mode_label(force_host_fallback: Option<&str>, sort_mode: Option<&str>) -> (r:
    &'static str)
    ensures
        r@ == sort_mode_label_spec(
            sort_mode_from_spec(
                match force_host_fallback {
                    Some(s) => Some(s@),
                    None => None,
                },
                match sort_mode {
                    Some(s) => Some(s@),
                    None => None,
                },
            ),
        ),
{
    diagnostics_sort_mode(force_host_fallback, sort_mode).label()
}

/// One line of golden output for a related span.
pub open spec fn golden_related_line(r: RelatedSpanView) -> Seq<char> {
    seq![' ', ' '] + seq!['r', 'e', 'l', 'a', 't', 'e', 'd', ':', ' '] + r.message + seq![
        ' ',
        '@',
        ' ',
    ] + decimal(r.span.line_start as nat) + seq![':'] + decimal(r.span.col_start as nat) + seq![
        '-',
    ] + decimal(r.span.line_end as nat) + seq![':'] + decimal(r.span.col_end as nat) + seq!['\n']
}

pub open spec fn golden_related_lines(rs: Seq<RelatedSpanView>) -> Seq<char>
    decreases rs.len(),
{
    if rs.len() == 0 {
        Seq::empty()
    } else {
        golden_related_lines(rs.drop_last()) + golden_related_line(rs.last())
    }
}

/// The golden rendering of one diagnostic and its related spans.
pub open spec fn golden_entry(d: DiagnosticView) -> Seq<char> {
    d.code + seq![':', ' '] + severity_label_spec(d.severity) + seq![':', ' '] + d.message
        + seq![' ', '@', ' '] + decimal(d.span.line_start as nat) + seq![':'] + decimal(
        d.span.col_start as nat,
    ) + seq!['-'] + decimal(d.span.line_end as nat) + seq![':'] + decimal(d.span.col_end as nat)
        + seq!['\n'] + golden_related_lines(d.related)
}

pub open spec fn golden_text(ds: Seq<DiagnosticView>) -> Seq<char>
    decreases ds.len(),
{
    if ds.len() == 0 {
        Seq::empty()
    } else {
        golden_text(ds.drop_last()) + golden_entry(ds.last())
    }
}

fn push_span_text(out: &mut String, s: Span)
    ensures
        final(out)@ == old(out)@ + decimal(s.line_start as nat) + seq![':'] + decimal(
            s.col_start as nat,
        ) + seq!['-'] + decimal(s.line_end as nat) + seq![':'] + decimal(s.col_end as nat),
{
    proof {
        reveal_strlit(":");
        reveal_strlit("-");
    }
    push_usize(out, s.line_start);
    push_str(out, ":");
    push_usize(out, s.col_start);
    push_str(out, "-");
    push_usize(out, s.line_end);
    push_str(out, ":");
    push_usize(out, s.col_end);
    assert(final(out)@ =~= old(out)@ + decimal(s.line_start as nat) + seq![':'] + decimal(
        s.col_start as nat,
    ) + seq!['-'] + decimal(s.line_end as nat) + seq![':'] + decimal(s.col_end as nat));
}

fn push_golden_entry(out: &mut String, d: &Diagnostic)
    ensures
        final(out)@ == old(out)@ + golden_entry(d@),
{
    proof {
        reveal_strlit(": ");
        reveal_strlit(" @ ");
        reveal_strlit("\n");
        reveal_strlit("  related: ");
    }
    assert(": "@ =~= seq![':', ' ']);
    assert(" @ "@ =~= seq![' ', '@', ' ']);
    assert("\n"@ =~= seq!['\n']);
    assert("  related: "@ =~= seq![' ', ' '] + seq!['r', 'e', 'l', 'a', 't', 'e', 'd', ':', ' ']);
    let ghost start = out@;
    push_str(out, d.code.as_str());
    push_str(out, ": ");
    push_str(out, d.severity.label());
    push_str(out, ": ");
    push_str(out, d.message.as_str());
    push_str(out, " @ ");
    push_span_text(out, d.span);
    push_str(out, "\n");
    let ghost head = out@;
    assert(head =~= start + (d@.code + seq![':', ' '] + severity_label_spec(d.severity) + seq![
        ':',
        ' ',
    ] + d.message@ + seq![' ', '@', ' '] + decimal(d.span.line_start as nat) + seq![':']
        + decimal(d.span.col_start as nat) + seq!['-'] + decimal(d.span.line_end as nat) + seq![
        ':',
    ] + decimal(d.span.col_end as nat) + seq!['\n']));
    let mut i: usize = 0;
    while i < d.related.len()
        invariant
            i <= d.related@.len(),
            out@ == head + golden_related_lines(views(d.related@).subrange(0, i as int)),
        decreases d.related.len() - i,
    {
        let r = &d.related[i];
        let ghost before = out@;
        proof {
            reveal_strlit(" @ ");
            reveal_strlit("\n");
            reveal_strlit("  related: ");
        }
        assert(" @ "@ =~= seq![' ', '@', ' ']);
        assert("\n"@ =~= seq!['\n']);
        assert("  related: "@ =~= seq![' ', ' '] + seq!['r', 'e', 'l', 'a', 't', 'e', 'd', ':', ' ']);
        push_str(out, "  related: ");
        push_str(out, r.message.as_str());
        push_str(out, " @ ");
        push_span_text(out, r.span);
        push_str(out, "\n");
        assert(views(d.related@).subrange(0, i + 1).drop_last() =~= views(d.related@).subrange(
            0,
            i as int,
        ));
        assert(views(d.related@)[i as int] == r@);
        assert(out@ =~= before + golden_related_line(r@));
        i = i + 1;
    }
    assert(views(d.related@).subrange(0, d.related@.len() as int) =~= views(d.related@));
    assert(out@ =~= start + golden_entry(d@));
}

/// The golden text of a sequence of diagnostics, in the given order.
fn golden_of(ds: &Vec<Diagnostic>) -> (r: String)
    ensures
        r@ == golden_text(views(ds@)),
{
    let mut out = String::new();
    let mut i: usize = 0;
    while i < ds.len()
        invariant
            i <= ds@.len(),
            out@ == golden_text(views(ds@).subrange(0, i as int)),
        decreases ds.len() - i,
    {
        push_golden_entry(&mut out, &ds[i]);
        assert(views(ds@).subrange(0, i + 1).drop_last() =~= views(ds@).subrange(0, i as int));
        assert(views(ds@)[i as int] == ds@[i as int]@);
        i = i + 1;
    }
    assert(views(ds@).subrange(0, ds@.len() as int) =~= views(ds@));
    out
}

/// A collection of diagnostics in the order they were reported.
#[derive(Debug, Clone, Default)]
pub struct Diagnostics {
    items: Vec<Diagnostic>,
}

impl View for Diagnostics {
    type V = Seq<DiagnosticView>;

    closed spec fn view(&self) -> Seq<DiagnosticView> {
        views(self.items@)
    }
}

impl Diagnostics {
    pub fn new() -> (r: Self)
        ensures
            r@ == Seq::<DiagnosticView>::empty(),
    {
        Diagnostics { items: Vec::new() }
    }

    pub fn push(&mut self, d: Diagnostic)
        ensures
            final(self)@ == old(self)@.push(d@),
    {
        self.items.push(d);
        assert(views(self.items@) =~= views(old(self).items@).push(d@));
    }

    pub fn extend(&mut self, ds: Vec<Diagnostic>)
        ensures
            final(self)@ == old(self)@ + views(ds@),
    {
        let mut ds = ds;
        let ghost dsv = views(ds@);
        self.items.append(&mut ds);
        assert(views(self.items@) =~= views(old(self).items@) + dsv);
    }

    pub fn len(&self) -> (r: usize)
        ensures
            r == self@.len(),
    {
        self.items.len()
    }

    pub fn has_errors(&self) -> (r: bool)
        ensures
            r == exists|i: int| 0 <= i < self@.len() && #[trigger] self@[i].severity == Severity::Error,
    {
        let mut i: usize = 0;
        while i < self.items.len()
            invariant
                i <= self.items@.len(),
                forall|j: int| 0 <= j < i ==> #[trigger] self@[j].severity != Severity::Error,
            decreases self.items.len() - i,
        {
            assert(self@[i as int] == self.items@[i as int]@);
            if self.items[i].severity == Severity::Error {
                assert(self@[i as int].severity == Severity::Error);
                return true;
            }
            i = i + 1;
        }
        false
    }

    pub fn as_slice(&self) -> (r: &[Diagnostic])
        ensures
            views(r@) == self@,
    {
        self.items.as_slice()
    }

    /// The diagnostics in the ordering that `mode` selects. Every mode,
    /// the selfhost candidate and the fallback included, gives the host
    /// order, as the ordering's parity promise asks: by span, then code,
    /// then severity; the sort is stable.
    pub fn into_sorted_with_mode(self, mode: DiagnosticsSortMode) -> (r: Vec<Diagnostic>)
        ensures
            is_stable_sort_of::<Diagnostic, HostOrder>(self@, views(r@)),
    {
        stable_sort::<Diagnostic, HostOrder>(self.items)
    }

    /// The diagnostics in host order: by span, then code, then severity
    /// (errors first); diagnostics with equal keys keep their reporting order.
    pub fn into_sorted(self) -> (r: Vec<Diagnostic>)
        ensures
            is_stable_sort_of::<Diagnostic, HostOrder>(self@, views(r@)),
    {
        stable_sort::<Diagnostic, HostOrder>(self.items)
    }

    /// A copy of the diagnostics in host order.
    pub fn sorted(&self) -> (r: Vec<Diagnostic>)
        ensures
            is_stable_sort_of::<Diagnostic, HostOrder>(self@, views(r@)),
    {
        stable_sort::<Diagnostic, HostOrder>(copy_diagnostics(&self.items))
    }

    /// The golden text: one entry per diagnostic in host order, each
    /// `code: severity: message @ l:c-l:c` followed by its related spans.
    pub fn to_golden(&self) -> (r: String)
        ensures
            exists|sorted: Seq<DiagnosticView>|
                is_stable_sort_of::<Diagnostic, HostOrder>(self@, sorted) && r@ == golden_text(
                    sorted,
                ),
    {
        let sorted = self.sorted();
        golden_of(&sorted)
    }
}

/// A copy of a list of related spans.
fn copy_related(rs: &Vec<RelatedSpan>) -> (r: Vec<RelatedSpan>)
    ensures
        views(r@) == views(rs@),
{
    let mut out: Vec<RelatedSpan> = Vec::new();
    let mut i: usize = 0;
    while i < rs.len()
        invariant
            i <= rs@.len(),
            views(out@) == views(rs@).subrange(0, i as int),
        decreases rs.len() - i,
    {
        let r = &rs[i];
        let ghost before = views(out@);
        out.push(RelatedSpan { message: r.message.clone(), span: r.span });
        assert(views(out@) =~= before.push(r@));
        assert(views(rs@)[i as int] == r@);
        assert(views(out@) =~= views(rs@).subrange(0, i + 1));
        i = i + 1;
    }
    assert(views(rs@).subrange(0, rs@.len() as int) =~= views(rs@));
    out
}

/// A copy of a diagnostic.
fn copy_diagnostic(d: &Diagnostic) -> (r: Diagnostic)
    ensures
        r@ == d@,
{
    Diagnostic {
        code: d.code.clone(),
        severity: d.severity,
        message: d.message.clone(),
        span: d.span,
        related: copy_related(&d.related),
    }
}

/// A copy of a list of diagnostics.
fn copy_diagnostics(ds: &Vec<Diagnostic>) -> (r: Vec<Diagnostic>)
    ensures
        views(r@) == views(ds@),
{
    let mut out: Vec<Diagnostic> = Vec::new();
    let mut i: usize = 0;
    while i < ds.len()
        invariant
            i <= ds@.len(),
            views(out@) == views(ds@).subrange(0, i as int),
        decreases ds.len() - i,
    {
        let ghost before = views(out@);
        let c = copy_diagnostic(&ds[i]);
        out.push(c);
        assert(views(out@) =~= before.push(ds@[i as int]@));
        assert(views(out@) =~= views(ds@).subrange(0, i + 1));
        i = i + 1;
    }
    assert(views(ds@).subrange(0, ds@.len() as int) =~= views(ds@));
    out
}

/// The two diagnostics have the same span, code and severity.
pub open spec fn same_host_key(a: DiagnosticView, b: DiagnosticView) -> bool {
    a.span == b.span && a.code == b.code && a.severity == b.severity
}

proof fn lemma_host_le_both_ways(a: DiagnosticView, b: DiagnosticView)
    requires
        host_key_le(a, b),
        host_key_le(b, a),
    ensures
        same_host_key(a, b),
{
    if str_le(a.code, b.code) && str_le(b.code, a.code) {
        crate::order::lemma_str_lt_eq(a.code, b.code);
    }
}

/// The host order does not depend on the order in which diagnostics were
/// reported: when `items2` is `items1` reordered (by `q`) and no two
/// diagnostics share their span, code and severity, the two sorts are the
/// same list and give the same golden text.
pub proof fn lemma_golden_ignores_report_order(
    items1: Seq<DiagnosticView>,
    items2: Seq<DiagnosticView>,
    q: Seq<int>,
    out1: Seq<DiagnosticView>,
    out2: Seq<DiagnosticView>,
)
    requires
        crate::order::is_permutation(q, items1.len()),
        items2.len() == items1.len(),
        forall|k: int| 0 <= k < items2.len() ==> #[trigger] items2[k] == items1[q[k]],
        forall|i: int, j: int|
            0 <= i < j < items1.len() ==> !same_host_key(#[trigger] items1[i], #[trigger] items1[j]),
        is_stable_sort_of::<Diagnostic, HostOrder>(items1, out1),
        is_stable_sort_of::<Diagnostic, HostOrder>(items2, out2),
    ensures
        out1 == out2,
        golden_text(out1) == golden_text(out2),
{
    let n = items1.len();
    let p2 = choose|p: Seq<int>| #[trigger] crate::order::stable_sort_witness::<Diagnostic, HostOrder>(
        items2,
        out2,
        p,
    );
    let p = Seq::new(n, |k: int| q[p2[k]]);
    assert forall|k: int| 0 <= k < p.len() implies 0 <= #[trigger] p[k] < n by {
        assert(0 <= p2[k] < n);
    }
    assert forall|k: int, l: int| 0 <= k < l < p.len() implies #[trigger] p[k] != #[trigger] p[l] by {
        assert(p2[k] != p2[l]);
        assert(0 <= p2[k] < n && 0 <= p2[l] < n);
        if p2[k] < p2[l] {
            assert(q[p2[k]] != q[p2[l]]);
        } else {
            assert(q[p2[l]] != q[p2[k]]);
        }
    }
    assert forall|k: int| 0 <= k < out2.len() implies #[trigger] out2[k] == items1[p[k]] by {
        assert(out2[k] == items2[p2[k]]);
        assert(0 <= p2[k] < n);
        assert(items2[p2[k]] == items1[q[p2[k]]]);
    }
    assert forall|k: int, l: int|
        0 <= k < l < out2.len() && HostOrder::le(#[trigger] out2[l], #[trigger] out2[k]) implies p[k] < p[l] by {
        assert(HostOrder::le(out2[k], out2[l]));
        lemma_host_le_both_ways(out2[k], out2[l]);
        assert(out2[k] == items1[p[k]]);
        assert(out2[l] == items1[p[l]]);
        assert(p[k] != p[l]);
        if p[k] < p[l] {
            assert(!same_host_key(items1[p[k]], items1[p[l]]));
        } else {
            assert(!same_host_key(items1[p[l]], items1[p[k]]));
        }
    }
    assert(crate::order::stable_sort_witness::<Diagnostic, HostOrder>(items1, out2, p));
    crate::order::lemma_stable_sort_unique::<Diagnostic, HostOrder>(items1, out1, out2);
}

} // verus!
