use vstd::prelude::*;

use crate::mir::{starts_with, trim};
use crate::order::views;
use crate::text::{chars_equal, chars_of, decimal, push_char, push_str, push_usize, string_of,
    string_of_range};

verus! {

/// The documentation of one function.
#[derive(Debug, Clone, PartialEq, Eq)]
pub struct DocItem {
    pub name: String,
    pub signature: String,
    pub source_line: usize,
    pub intent: Option<String>,
    pub effects: Vec<String>,
    pub requires: Vec<String>,
    pub ensures: Vec<String>,
    pub examples: Vec<String>,
}

pub struct DocItemView {
    pub name: Seq<char>,
    pub signature: Seq<char>,
    pub source_line: nat,
    pub intent: Option<Seq<char>>,
    pub effects: Seq<Seq<char>>,
    pub requires: Seq<Seq<char>>,
    pub ensures: Seq<Seq<char>>,
    pub examples: Seq<Seq<char>>,
}

impl View for DocItem {
    type V = DocItemView;

    open spec fn view(&self) -> DocItemView {
        DocItemView {
            name: self.name@,
            signature: self.signature@,
            source_line: self.source_line as nat,
            intent: crate::indexer::model::opt_text(self.intent),
            effects: views(self.effects@),
            requires: views(self.requires@),
            ensures: views(self.ensures@),
            examples: views(self.examples@),
        }
    }
}

/// The items joined with `sep` between them.
pub open spec fn join_with(items: Seq<Seq<char>>, sep: Seq<char>) -> Seq<char>
    decreases items.len(),
{
    if items.len() == 0 {
        Seq::empty()
    } else if items.len() == 1 {
        items[0]
    } else {
        join_with(items.drop_last(), sep) + sep + items.last()
    }
}

pub open spec fn example_lines(examples: Seq<Seq<char>>) -> Seq<char>
    decreases examples.len(),
{
    if examples.len() == 0 {
        Seq::empty()
    } else {
        example_lines(examples.drop_last()) + "  - `"@ + examples.last() + "`\n"@
    }
}

/// The section of one item.
pub open spec fn item_markdown(item: DocItemView) -> Seq<char> {
    "## `"@ + item.signature + "`\n\n"@ + "- Source: line "@ + decimal(item.source_line) + "\n"@
        + (match item.intent {
        Some(i) => "- Intent: "@ + i + "\n"@,
        None => Seq::empty(),
    }) + (if item.effects.len() > 0 {
        "- Effects: "@ + join_with(item.effects, ", "@) + "\n"@
    } else {
        Seq::empty()
    }) + (if item.requires.len() > 0 {
        "- Requires: "@ + join_with(item.requires, " | "@) + "\n"@
    } else {
        Seq::empty()
    }) + (if item.ensures.len() > 0 {
        "- Ensures: "@ + join_with(item.ensures, " | "@) + "\n"@
    } else {
        Seq::empty()
    }) + (if item.examples.len() > 0 {
        "- Examples:\n"@ + example_lines(item.examples)
    } else {
        Seq::empty()
    }) + "\n"@
}

pub open spec fn items_markdown(items: Seq<DocItemView>) -> Seq<char>
    decreases items.len(),
{
    if items.len() == 0 {
        Seq::empty()
    } else {
        items_markdown(items.drop_last()) + item_markdown(items.last())
    }
}

/// The Markdown page of a module's documentation.
pub open spec fn render_markdown_spec(module_name: Seq<char>, items: Seq<DocItemView>) -> Seq<char> {
    "# API: "@ + module_name + "\n\n"@ + if items.len() == 0 {
        "_No documentable functions found._\n"@
    } else {
        items_markdown(items)
    }
}

fn push_joined(out: &mut String, items: &Vec<String>, sep: &str)
    ensures
        final(out)@ == old(out)@ + join_with(views(items@), sep@),
{
    let ghost start = out@;
    let ghost v = views(items@);
    let mut i: usize = 0;
    while i < items.len()
        invariant
            v == views(items@),
            i <= v.len(),
            out@ == start + join_with(v.take(i as int), sep@),
        decreases items.len() - i,
    {
        let ghost before = out@;
        if i > 0 {
            push_str(out, sep);
        }
        push_str(out, items[i].as_str());
        assert(v[i as int] == items@[i as int]@);
        assert(v.take(i + 1).drop_last() =~= v.take(i as int));
        assert(v.take(i + 1).last() == v[i as int]);
        proof {
            if i == 0 {
                assert(v.take(0) =~= Seq::<Seq<char>>::empty());
                assert(v.take(1).len() == 1);
                assert(out@ =~= start + join_with(v.take(1), sep@));
            } else {
                assert(out@ =~= start + join_with(v.take(i + 1), sep@));
            }
        }
        i = i + 1;
    }
    assert(v.take(v.len() as int) =~= v);
}

pub open spec fn head_part(item: DocItemView) -> Seq<char> {
    "## `"@ + item.signature + "`\n\n"@ + "- Source: line "@ + decimal(item.source_line) + "\n"@
}

pub open spec fn intent_part(item: DocItemView) -> Seq<char> {
    match item.intent {
        Some(i) => "- Intent: "@ + i + "\n"@,
        None => Seq::empty(),
    }
}

pub open spec fn list_part(label: Seq<char>, items: Seq<Seq<char>>, sep: Seq<char>) -> Seq<char> {
    if items.len() > 0 {
        label + join_with(items, sep) + "\n"@
    } else {
        Seq::empty()
    }
}

pub open spec fn examples_part(examples: Seq<Seq<char>>) -> Seq<char> {
    if examples.len() > 0 {
        "- Examples:\n"@ + example_lines(examples)
    } else {
        Seq::empty()
    }
}

proof fn lemma_item_markdown_parts(item: DocItemView)
    ensures
        item_markdown(item) == head_part(item) + intent_part(item) + list_part(
            "- Effects: "@,
            item.effects,
            ", "@,
        ) + list_part("- Requires: "@, item.requires, " | "@) + list_part(
            "- Ensures: "@,
            item.ensures,
            " | "@,
        ) + examples_part(item.examples) + "\n"@,
{
    assert(item_markdown(item) =~= head_part(item) + intent_part(item) + list_part(
        "- Effects: "@,
        item.effects,
        ", "@,
    ) + list_part("- Requires: "@, item.requires, " | "@) + list_part(
        "- Ensures: "@,
        item.ensures,
        " | "@,
    ) + examples_part(item.examples) + "\n"@);
}

fn push_list_line(out: &mut String, label: &str, items: &Vec<String>, sep: &str)
    ensures
        final(out)@ == old(out)@ + list_part(label@, views(items@), sep@),
{
    if items.len() > 0 {
        push_str(out, label);
        push_joined(out, items, sep);
        push_str(out, "\n");
        assert(final(out)@ =~= old(out)@ + list_part(label@, views(items@), sep@));
    } else {
        assert(old(out)@ + list_part(label@, views(items@), sep@) =~= old(out)@);
    }
}

fn push_examples(out: &mut String, examples: &Vec<String>)
    ensures
        final(out)@ == old(out)@ + examples_part(views(examples@)),
{
    let ghost ex = views(examples@);
    if examples.len() == 0 {
        assert(old(out)@ + examples_part(ex) =~= old(out)@);
        return ;
    }
    push_str(out, "- Examples:\n");
    let ghost p = out@;
    let mut i: usize = 0;
    assert(ex.take(0) =~= Seq::<Seq<char>>::empty());
    assert(out@ =~= p + example_lines(ex.take(0)));
    while i < examples.len()
        invariant
            ex == views(examples@),
            i <= ex.len(),
            out@ == p + example_lines(ex.take(i as int)),
        decreases examples.len() - i,
    {
        push_str(out, "  - `");
        push_str(out, examples[i].as_str());
        push_str(out, "`\n");
        assert(ex[i as int] == examples@[i as int]@);
        assert(ex.take(i + 1).drop_last() =~= ex.take(i as int));
        assert(ex.take(i + 1).last() == ex[i as int]);
        assert(out@ =~= p + example_lines(ex.take(i + 1)));
        i = i + 1;
    }
    assert(ex.take(ex.len() as int) =~= ex);
    assert(out@ =~= old(out)@ + examples_part(ex));
}

fn push_head(out: &mut String, item: &DocItem)
    ensures
        final(out)@ == old(out)@ + head_part(item@) + intent_part(item@),
{
    push_str(out, "## `");
    push_str(out, item.signature.as_str());
    push_str(out, "`\n\n");
    push_str(out, "- Source: line ");
    push_usize(out, item.source_line);
    push_str(out, "\n");
    match &item.intent {
        Some(intent) => {
            push_str(out, "- Intent: ");
            push_str(out, intent.as_str());
            push_str(out, "\n");
        },
        None => {},
    }
    assert(final(out)@ =~= old(out)@ + head_part(item@) + intent_part(item@));
}

fn push_item(out: &mut String, item: &DocItem)
    ensures
        final(out)@ == old(out)@ + item_markdown(item@),
{
    let ghost start = out@;
    push_head(out, item);
    push_list_line(out, "- Effects: ", &item.effects, ", ");
    push_list_line(out, "- Requires: ", &item.requires, " | ");
    push_list_line(out, "- Ensures: ", &item.ensures, " | ");
    push_examples(out, &item.examples);
    push_str(out, "\n");
    proof {
        lemma_item_markdown_parts(item@);
    }
    assert(out@ =~= start + item_markdown(item@));
}

/// Renders the documentation of a module as Markdown: a title, then one
/// section per item with its signature, source line, intent, effects,
/// contracts and examples.
pub fn render_markdown(module_name: &str, items: &[DocItem]) -> (r: String)
    ensures
        r@ == render_markdown_spec(module_name@, views(items@)),
{
    let mut out = String::new();
    push_str(&mut out, "# API: ");
    push_str(&mut out, module_name);
    push_str(&mut out, "\n\n");
    let ghost head = out@;
    if items.len() == 0 {
        push_str(&mut out, "_No documentable functions found._\n");
        assert(out@ =~= render_markdown_spec(module_name@, views(items@)));
        return out;
    }
    let ghost v = views(items@);
    let mut i: usize = 0;
    assert(v.take(0) =~= Seq::<DocItemView>::empty());
    assert(out@ =~= head + items_markdown(v.take(0)));
    while i < items.len()
        invariant
            v == views(items@),
            i <= v.len(),
            out@ == head + items_markdown(v.take(i as int)),
        decreases items.len() - i,
    {
        push_item(&mut out, &items[i]);
        assert(v[i as int] == items@[i as int]@);
        assert(v.take(i + 1).drop_last() =~= v.take(i as int));
        assert(v.take(i + 1).last() == v[i as int]);
        assert(out@ =~= head + items_markdown(v.take(i + 1)));
        i = i + 1;
    }
    assert(v.take(v.len() as int) =~= v);
    assert(out@ =~= render_markdown_spec(module_name@, v));
    out
}


/// What has been read toward the next documented function.
pub struct PendingView {
    pub intent: Option<Seq<char>>,
    pub effects: Seq<Seq<char>>,
    pub requires: Seq<Seq<char>>,
    pub ensures: Seq<Seq<char>>,
    pub examples: Seq<Seq<char>>,
}

/// The state of the documentation scan after some lines.
pub struct DocScanView {
    pub out: Seq<DocItemView>,
    pub pending: PendingView,
    pub in_examples: bool,
}

pub open spec fn no_pending() -> PendingView {
    PendingView {
        intent: None,
        effects: Seq::empty(),
        requires: Seq::empty(),
        ensures: Seq::empty(),
        examples: Seq::empty(),
    }
}

/// The text between surrounding double quotes, trimmed; unquoted text is
/// only trimmed.
pub open spec fn clean_quoted_spec(raw: Seq<char>) -> Seq<char> {
    let t = trim(raw);
    if t.len() >= 2 && t[0] == '"' && t.last() == '"' {
        t.subrange(1, t.len() - 1)
    } else {
        t
    }
}

/// `t` without its trailing `{` characters.
pub open spec fn trim_end_braces(t: Seq<char>) -> Seq<char>
    decreases t.len(),
{
    if t.len() > 0 && t.last() == '{' {
        trim_end_braces(t.drop_last())
    } else {
        t
    }
}

/// The pattern of a function declaration line: an optional `pub`, then
/// the function's name (the captured group) and an opening parenthesis.
pub open spec fn fn_pattern() -> Seq<char> {
    "^(?:pub\\s+)?([A-Za-z_][A-Za-z0-9_]*)\\s*\\("@
}

/// What the regular expression `pattern` captures in its group `group`
/// on `text` (`regex::Regex::captures`), if it matches.
pub uninterp spec fn regex_group(pattern: Seq<char>, text: Seq<char>, group: nat) -> Option<Seq<char>>;

/// `regex::Regex::new(pattern)` then `captures(text)` and group `group`.
/// The result is named `regex_group`: the regex crate's matching rules
/// are not written out. `Regex::new` panics on a pattern that does not
/// compile, so the pattern is the library's fixed one, which does.
#[verifier::external_body]
fn regex_capture(pattern: &str, text: &str, group: usize) -> (r: Option<String>)
    requires
        pattern@ == fn_pattern(),
    ensures
        match r {
            Some(g) => regex_group(pattern@, text@, group as nat) == Some(g@),
            None => regex_group(pattern@, text@, group as nat).is_none(),
        },
{
    let re = regex::Regex::new(pattern).expect("valid pattern");
    match re.captures(text) {
        Some(caps) => match caps.get(group) {
            Some(m) => Some(m.as_str().to_string()),
            None => None,
        },
        None => None,
    }
}

/// The scan state after a declaration line whose captured name is
/// `name` (as the pattern gave it), at line `idx` (0-based).
pub open spec fn declaration_step(st: DocScanView, idx: nat, t: Seq<char>, name: Option<Seq<char>>) -> DocScanView {
    match name {
        None => st,
        Some(n) => if n.len() == 0 {
            st
        } else {
            DocScanView {
                out: st.out.push(
                    DocItemView {
                        name: n,
                        signature: trim(trim_end_braces(t)),
                        source_line: idx + 1,
                        intent: st.pending.intent,
                        effects: st.pending.effects,
                        requires: st.pending.requires,
                        ensures: st.pending.ensures,
                        examples: st.pending.examples,
                    },
                ),
                pending: no_pending(),
                in_examples: st.in_examples,
            }
        },
    }
}

/// One line of the scan: blank lines are skipped; inside `@examples`
/// lines are collected until `}`; annotation lines are recorded; other
/// lines that declare a function close a documentation item.
pub open spec fn doc_step(st: DocScanView, idx: nat, raw: Seq<char>) -> DocScanView {
    let t = trim(raw);
    let p = st.pending;
    if t.len() == 0 {
        st
    } else if st.in_examples {
        if t == "}"@ {
            DocScanView { in_examples: false, ..st }
        } else if !starts_with(t, "@examples"@) {
            DocScanView { pending: PendingView { examples: p.examples.push(t), ..p }, ..st }
        } else {
            st
        }
    } else if starts_with(t, "@intent "@) {
        DocScanView { pending: PendingView { intent: Some(clean_quoted_spec(t.skip(8))), ..p }, ..st }
    } else if starts_with(t, "@effect "@) {
        DocScanView { pending: PendingView { effects: p.effects.push(trim(t.skip(8))), ..p }, ..st }
    } else if starts_with(t, "@require "@) {
        DocScanView { pending: PendingView { requires: p.requires.push(trim(t.skip(9))), ..p }, ..st }
    } else if starts_with(t, "@ensure "@) {
        DocScanView { pending: PendingView { ensures: p.ensures.push(trim(t.skip(8))), ..p }, ..st }
    } else if starts_with(t, "@examples"@) {
        DocScanView { in_examples: true, ..st }
    } else {
        declaration_step(st, idx, t, regex_group(fn_pattern(), t, 1))
    }
}

/// The lines of a text: the pieces between `\n`s, without the empty piece
/// after a final `\n`.
pub open spec fn text_lines(s: Seq<char>) -> Seq<Seq<char>> {
    if s.len() == 0 || s.last() == '\n' {
        crate::fmt::split_lines(s).drop_last()
    } else {
        crate::fmt::split_lines(s)
    }
}

pub open spec fn doc_scan(lines: Seq<Seq<char>>, k: nat) -> DocScanView
    decreases k,
{
    if k == 0 {
        DocScanView { out: Seq::empty(), pending: no_pending(), in_examples: false }
    } else {
        doc_step(doc_scan(lines, (k - 1) as nat), (k - 1) as nat, lines[k - 1])
    }
}

/// The documentation items of a source text.
pub open spec fn extract_docs_spec(source: Seq<char>) -> Seq<DocItemView> {
    let lines = text_lines(source);
    doc_scan(lines, lines.len()).out
}

/// `line` is an `@intent` annotation whose text is `v`.
pub open spec fn intent_line(line: Seq<char>, v: Seq<char>) -> bool {
    starts_with(trim(line), "@intent "@) && v == clean_quoted_spec(trim(line).skip(8))
}

/// The line after the declaration of the last item read, or the first
/// line when none has been read.
pub open spec fn after_last_item(out: Seq<DocItemView>) -> int {
    if out.len() == 0 {
        0
    } else {
        out.last().source_line as int
    }
}

/// Where each item's intent comes from: items stand on increasing lines
/// among those read; the pending intent, and each item's intent, is the
/// text of an `@intent` line after the previous item's declaration and
/// before the line that closes it.
pub open spec fn intents_are_own(lines: Seq<Seq<char>>, k: int, st: DocScanView) -> bool {
    &&& forall|m: int| 0 <= m < st.out.len() ==> 1 <= #[trigger] st.out[m].source_line <= k
    &&& forall|m: int| 0 < m < st.out.len() ==> st.out[m - 1].source_line < #[trigger] st.out[m].source_line
    &&& st.pending.intent is Some ==> exists|i: int|
        after_last_item(st.out) <= i < k && #[trigger] intent_line(lines[i], st.pending.intent.unwrap())
    &&& forall|m: int| 0 <= m < st.out.len() && (#[trigger] st.out[m]).intent is Some ==> exists|i: int|
        after_last_item(st.out.take(m)) <= i < st.out[m].source_line - 1 && #[trigger] intent_line(
            lines[i],
            st.out[m].intent.unwrap(),
        )
}

proof fn lemma_scan_intents_are_own(lines: Seq<Seq<char>>, k: nat)
    requires
        k <= lines.len(),
    ensures
        intents_are_own(lines, k as int, doc_scan(lines, k)),
    decreases k,
{
    if k > 0 {
        let j = (k - 1) as nat;
        lemma_scan_intents_are_own(lines, j);
        let st = doc_scan(lines, j);
        let nx = doc_scan(lines, k);
        assert(nx == doc_step(st, j, lines[j as int]));
        if nx.pending.intent is Some {
            let v = nx.pending.intent.unwrap();
            if st.pending.intent == Some(v) && nx.out == st.out {
                let i = choose|i: int| after_last_item(st.out) <= i < j && #[trigger] intent_line(lines[i], v);
                assert(intent_line(lines[i], v));
            } else {
                assert(intent_line(lines[j as int], v));
            }
        }
        if nx.out != st.out {
            assert(nx.out == st.out.push(nx.out.last()));
            assert(nx.out.last().source_line == k);
            assert(nx.out.last().intent == st.pending.intent);
            assert(nx.out.take(st.out.len() as int) =~= st.out);
            assert forall|m: int| 0 <= m < nx.out.len() && (#[trigger] nx.out[m]).intent is Some implies exists|i: int|
                after_last_item(nx.out.take(m)) <= i < nx.out[m].source_line - 1 && #[trigger] intent_line(
                    lines[i],
                    nx.out[m].intent.unwrap(),
                ) by {
                let v = nx.out[m].intent.unwrap();
                if m < st.out.len() {
                    assert(nx.out[m] == st.out[m]);
                    assert(nx.out.take(m) =~= st.out.take(m));
                    assert(st.out[m].intent is Some);
                } else {
                    assert(st.pending.intent == Some(v));
                    let i = choose|i: int| after_last_item(st.out) <= i < j && #[trigger] intent_line(lines[i], v);
                    assert(intent_line(lines[i], v));
                }
            }
        } else {
            assert forall|m: int| 0 <= m < nx.out.len() && (#[trigger] nx.out[m]).intent is Some implies exists|i: int|
                after_last_item(nx.out.take(m)) <= i < nx.out[m].source_line - 1 && #[trigger] intent_line(
                    lines[i],
                    nx.out[m].intent.unwrap(),
                ) by {
                assert(st.out[m].intent is Some);
            }
        }
    }
}

/// `line` is an annotation with the given tag.
pub open spec fn tagged(line: Seq<char>, tag: Seq<char>) -> bool {
    starts_with(trim(line), tag)
}

/// Some line in `lo..hi` is an annotation with the given tag.
pub open spec fn tagged_between(lines: Seq<Seq<char>>, lo: int, hi: int, tag: Seq<char>) -> bool {
    exists|i: int| lo <= i < hi && #[trigger] tagged(lines[i], tag)
}

/// The effects, preconditions and postconditions pending, and those of
/// each item, come from annotation lines after the previous item's
/// declaration and before the line that closes them.
pub open spec fn lists_are_own(lines: Seq<Seq<char>>, k: int, st: DocScanView) -> bool {
    &&& st.pending.effects.len() > 0 ==> tagged_between(lines, after_last_item(st.out), k, "@effect "@)
    &&& st.pending.requires.len() > 0 ==> tagged_between(lines, after_last_item(st.out), k, "@require "@)
    &&& st.pending.ensures.len() > 0 ==> tagged_between(lines, after_last_item(st.out), k, "@ensure "@)
    &&& forall|m: int| 0 <= m < st.out.len() ==> {
        let lo = after_last_item(st.out.take(m));
        let hi = (#[trigger] st.out[m]).source_line - 1;
        &&& st.out[m].effects.len() > 0 ==> tagged_between(lines, lo, hi, "@effect "@)
        &&& st.out[m].requires.len() > 0 ==> tagged_between(lines, lo, hi, "@require "@)
        &&& st.out[m].ensures.len() > 0 ==> tagged_between(lines, lo, hi, "@ensure "@)
    }
}

proof fn lemma_tagged_widen(lines: Seq<Seq<char>>, lo: int, hi: int, hi2: int, tag: Seq<char>)
    requires
        tagged_between(lines, lo, hi, tag),
        hi <= hi2,
    ensures
        tagged_between(lines, lo, hi2, tag),
{
    let i = choose|i: int| lo <= i < hi && #[trigger] tagged(lines[i], tag);
    assert(tagged(lines[i], tag));
}

proof fn lemma_scan_lists_are_own(lines: Seq<Seq<char>>, k: nat)
    requires
        k <= lines.len(),
    ensures
        lists_are_own(lines, k as int, doc_scan(lines, k)),
    decreases k,
{
    if k > 0 {
        let j = (k - 1) as nat;
        lemma_scan_intents_are_own(lines, j);
        lemma_scan_lists_are_own(lines, j);
        let st = doc_scan(lines, j);
        let nx = doc_scan(lines, k);
        assert(nx == doc_step(st, j, lines[j as int]));
        let lo = after_last_item(st.out);
        if nx.out == st.out {
            if nx.pending.effects.len() > 0 {
                if nx.pending.effects == st.pending.effects {
                    lemma_tagged_widen(lines, lo, j as int, k as int, "@effect "@);
                } else {
                    assert(tagged(lines[j as int], "@effect "@));
                }
            }
            if nx.pending.requires.len() > 0 {
                if nx.pending.requires == st.pending.requires {
                    lemma_tagged_widen(lines, lo, j as int, k as int, "@require "@);
                } else {
                    assert(tagged(lines[j as int], "@require "@));
                }
            }
            if nx.pending.ensures.len() > 0 {
                if nx.pending.ensures == st.pending.ensures {
                    lemma_tagged_widen(lines, lo, j as int, k as int, "@ensure "@);
                } else {
                    assert(tagged(lines[j as int], "@ensure "@));
                }
            }
        } else {
            assert(nx.out == st.out.push(nx.out.last()));
            assert(nx.out.last().source_line == k);
            assert(nx.pending == no_pending());
            assert(nx.out.take(st.out.len() as int) =~= st.out);
            assert forall|m: int| 0 <= m < nx.out.len() implies {
                let lo2 = after_last_item(nx.out.take(m));
                let hi2 = (#[trigger] nx.out[m]).source_line - 1;
                &&& nx.out[m].effects.len() > 0 ==> tagged_between(lines, lo2, hi2, "@effect "@)
                &&& nx.out[m].requires.len() > 0 ==> tagged_between(lines, lo2, hi2, "@require "@)
                &&& nx.out[m].ensures.len() > 0 ==> tagged_between(lines, lo2, hi2, "@ensure "@)
            } by {
                if m < st.out.len() {
                    assert(nx.out[m] == st.out[m]);
                    assert(nx.out.take(m) =~= st.out.take(m));
                }
            }
        }
    }
}

/// Each annotation belongs to exactly one item: an item's intent is the
/// text of an `@intent` line between the previous item's declaration (or
/// the start of the source) and its own declaration, and an item with no
/// such line has no intent; likewise an item has effects, preconditions
/// or postconditions only where `@effect`, `@require` or `@ensure` lines
/// stand in that span.
pub proof fn lemma_intent_comes_from_own_annotation(source: Seq<char>, m: int)
    requires
        0 <= m < extract_docs_spec(source).len(),
    ensures
        ({
            let items = extract_docs_spec(source);
            let lines = text_lines(source);
            let lo = if m == 0 {
                0
            } else {
                items[m - 1].source_line as int
            };
            let hi = items[m].source_line - 1;
            &&& lo <= hi < lines.len()
            &&& items[m].intent matches Some(v) ==> exists|i: int| lo <= i < hi && #[trigger] intent_line(lines[i], v)
            &&& (forall|i: int| lo <= i < hi ==> !starts_with(trim(#[trigger] lines[i]), "@intent "@))
                ==> items[m].intent is None
            &&& (forall|i: int| lo <= i < hi ==> !starts_with(trim(#[trigger] lines[i]), "@effect "@))
                ==> items[m].effects.len() == 0
            &&& (forall|i: int| lo <= i < hi ==> !starts_with(trim(#[trigger] lines[i]), "@require "@))
                ==> items[m].requires.len() == 0
            &&& (forall|i: int| lo <= i < hi ==> !starts_with(trim(#[trigger] lines[i]), "@ensure "@))
                ==> items[m].ensures.len() == 0
        }),
{
    let lines = text_lines(source);
    lemma_scan_intents_are_own(lines, lines.len());
    lemma_scan_lists_are_own(lines, lines.len());
    let items = extract_docs_spec(source);
    assert(after_last_item(items.take(m)) == if m == 0 {
        0
    } else {
        items[m - 1].source_line as int
    });
    if m > 0 {
        assert(items[m - 1].source_line < items[m].source_line);
    }
    assert(1 <= items[m].source_line <= lines.len());
    if let Some(v) = items[m].intent {
        let i = choose|i: int| after_last_item(items.take(m)) <= i < items[m].source_line - 1
            && #[trigger] intent_line(lines[i], v);
        assert(intent_line(lines[i], v));
    }
}

/// The scan state, as a value that a caller can carry from line to line.
pub struct DocScanner {
    out: Vec<DocItem>,
    intent: Option<String>,
    effects: Vec<String>,
    requires: Vec<String>,
    ensures: Vec<String>,
    examples: Vec<String>,
    in_examples: bool,
}

impl View for DocScanner {
    type V = DocScanView;

    closed spec fn view(&self) -> DocScanView {
        DocScanView {
            out: views(self.out@),
            pending: PendingView {
                intent: crate::indexer::model::opt_text(self.intent),
                effects: views(self.effects@),
                requires: views(self.requires@),
                ensures: views(self.ensures@),
                examples: views(self.examples@),
            },
            in_examples: self.in_examples,
        }
    }
}

fn push_string(v: &mut Vec<String>, s: String)
    ensures
        views(final(v)@) == views(old(v)@).push(s@),
{
    let ghost sv = s@;
    v.push(s);
    assert(views(v@) =~= views(old(v)@).push(sv));
}

fn trim_str(s: &[char]) -> (r: String)
    ensures
        r@ == trim(s@),
{
    let t = crate::mir::trim_chars_pub(s);
    string_of(t.as_slice())
}

/// The text of `raw` without surrounding double quotes, trimmed.
pub fn clean_quoted(raw: &str) -> (r: String)
    ensures
        r@ == clean_quoted_spec(raw@),
{
    let cs = chars_of(raw);
    let t = crate::mir::trim_chars_pub(cs.as_slice());
    if t.len() >= 2 && t[0] == '"' && t[t.len() - 1] == '"' {
        return string_of_range(t.as_slice(), 1, t.len() - 1);
    }
    string_of(t.as_slice())
}

impl DocScanner {
    pub fn new() -> (r: Self)
        ensures
            r@ == (DocScanView { out: Seq::empty(), pending: no_pending(), in_examples: false }),
    {
        let r = DocScanner {
            out: Vec::new(),
            intent: None,
            effects: Vec::new(),
            requires: Vec::new(),
            ensures: Vec::new(),
            examples: Vec::new(),
            in_examples: false,
        };
        assert(views(r.out@) =~= Seq::<DocItemView>::empty());
        assert(views(r.effects@) =~= Seq::<Seq<char>>::empty());
        assert(views(r.requires@) =~= Seq::<Seq<char>>::empty());
        assert(views(r.ensures@) =~= Seq::<Seq<char>>::empty());
        assert(views(r.examples@) =~= Seq::<Seq<char>>::empty());
        r
    }

    /// The step for a trimmed declaration line given what the function
    /// pattern captured on it.
    pub fn apply_declaration(&mut self, idx: usize, t: &[char], name: Option<String>)
        requires
            idx < usize::MAX,
        ensures
            final(self)@ == declaration_step(
                old(self)@,
                idx as nat,
                t@,
                match name {
                    Some(n) => Some(n@),
                    None => None,
                },
            ),
    {
        let n = match name {
            Some(n) => n,
            None => {
                return ;
            },
        };
        if n.as_str().is_empty() {
            return ;
        }
        let mut end = t.len();
        let ghost tv = t@;
        assert(tv.take(tv.len() as int) =~= tv);
        while end > 0 && t[end - 1] == '{'
            invariant
                tv == t@,
                end <= tv.len(),
                trim_end_braces(tv) == trim_end_braces(tv.take(end as int)),
            decreases end,
        {
            assert(tv.take(end as int).drop_last() =~= tv.take(end - 1));
            end = end - 1;
        }
        let body = crate::text::slice_range(t, 0, end);
        assert(body@ =~= tv.take(end as int));
        let signature = trim_str(body.as_slice());
        let mut intent: Option<String> = None;
        std::mem::swap(&mut intent, &mut self.intent);
        let mut effects: Vec<String> = Vec::new();
        std::mem::swap(&mut effects, &mut self.effects);
        let mut reqs: Vec<String> = Vec::new();
        std::mem::swap(&mut reqs, &mut self.requires);
        let mut enss: Vec<String> = Vec::new();
        std::mem::swap(&mut enss, &mut self.ensures);
        let mut examples: Vec<String> = Vec::new();
        std::mem::swap(&mut examples, &mut self.examples);
        let item = DocItem {
            name: n,
            signature,
            source_line: idx + 1,
            intent,
            effects,
            requires: reqs,
            ensures: enss,
            examples,
        };
        let ghost iv = item@;
        self.out.push(item);
        assert(views(self.out@) =~= views(old(self).out@).push(iv));
        assert(views(self.effects@) =~= Seq::<Seq<char>>::empty());
        assert(views(self.requires@) =~= Seq::<Seq<char>>::empty());
        assert(views(self.ensures@) =~= Seq::<Seq<char>>::empty());
        assert(views(self.examples@) =~= Seq::<Seq<char>>::empty());
    }

    /// Reads one line (0-based index `idx`) of the source.
    pub fn scan_line(&mut self, idx: usize, raw: &[char])
        requires
            idx < usize::MAX,
        ensures
            final(self)@ == doc_step(old(self)@, idx as nat, raw@),
    {
        let t = crate::mir::trim_chars_pub(raw);
        let ts = t.as_slice();
        if t.len() == 0 {
            return ;
        }
        if self.in_examples {
            if chars_equal(ts, "}") {
                self.in_examples = false;
            } else if !crate::mir::starts_with_str(ts, "@examples") {
                push_string(&mut self.examples, string_of(ts));
            }
            return ;
        }
        assert("@intent "@.len() == 8) by { reveal_strlit("@intent "); }
        assert("@effect "@.len() == 8) by { reveal_strlit("@effect "); }
        assert("@require "@.len() == 9) by { reveal_strlit("@require "); }
        assert("@ensure "@.len() == 8) by { reveal_strlit("@ensure "); }
        if crate::mir::starts_with_str(ts, "@intent ") {
            let rest = string_of_range(ts, 8, t.len());
            assert(rest@ =~= t@.skip(8));
            self.intent = Some(clean_quoted(rest.as_str()));
            return ;
        }
        if crate::mir::starts_with_str(ts, "@effect ") {
            let rest = crate::text::slice_range(ts, 8, t.len());
            assert(rest@ =~= t@.skip(8));
            push_string(&mut self.effects, trim_str(rest.as_slice()));
            return ;
        }
        if crate::mir::starts_with_str(ts, "@require ") {
            let rest = crate::text::slice_range(ts, 9, t.len());
            assert(rest@ =~= t@.skip(9));
            push_string(&mut self.requires, trim_str(rest.as_slice()));
            return ;
        }
        if crate::mir::starts_with_str(ts, "@ensure ") {
            let rest = crate::text::slice_range(ts, 8, t.len());
            assert(rest@ =~= t@.skip(8));
            push_string(&mut self.ensures, trim_str(rest.as_slice()));
            return ;
        }
        if crate::mir::starts_with_str(ts, "@examples") {
            self.in_examples = true;
            return ;
        }
        let line = string_of(ts);
        let name = regex_capture("^(?:pub\\s+)?([A-Za-z_][A-Za-z0-9_]*)\\s*\\(", line.as_str(), 1);
        self.apply_declaration(idx, ts, name);
    }

    pub fn into_items(self) -> (r: Vec<DocItem>)
        ensures
            views(r@) == self@.out,
    {
        self.out
    }
}

/// The documented functions of a source text, with the annotations
/// (`@intent`, `@effect`, `@require`, `@ensure`, `@examples`) that precede
/// each.
pub fn extract_docs(source: &str) -> (r: Vec<DocItem>)
    ensures
        views(r@) == extract_docs_spec(source@),
{
    let cs = chars_of(source);
    let mut pieces = crate::fmt::split_lines_exec(&cs);
    let ghost lines = text_lines(source@);
    if cs.len() == 0 || cs[cs.len() - 1] == '\n' {
        pieces.pop();
    }
    assert(views(pieces@) =~= lines);
    let mut scanner = DocScanner::new();
    let mut idx: usize = 0;
    while idx < pieces.len()
        invariant
            views(pieces@) == lines,
            idx <= lines.len(),
            scanner@ == doc_scan(lines, idx as nat),
        decreases pieces.len() - idx,
    {
        assert(lines[idx as int] == pieces@[idx as int]@);
        scanner.scan_line(idx, pieces[idx].as_slice());
        idx = idx + 1;
    }
    scanner.into_items()
}

} // verus!
