//! The document sink: an abstract token stream with four emission
//! operations — append text, change indentation, break the line, leave a
//! blank line — realized by genco's `Tokens` for its Nix dialect and
//! modelled here as a sequence of [`DocItem`]s together with the exact
//! formatting function [`doc_lines`] that turns the items into output
//! lines (four spaces per indentation level).
//!
//! Every stream the crate builds goes through the wrappers below, so a
//! stream only ever holds literal text, indentation, line-break and
//! blank-line items; the model covers exactly those.

use vstd::prelude::*;

verus! {

/// One buffered item of the document sink.
pub enum DocItem {
    /// Literal text, added to the current line.
    Text(Seq<char>),
    /// A line break: following text starts a new line.
    Push,
    /// A blank line: one empty line separates the surrounding text.
    Line,
    /// An indentation change by `n` levels, which also breaks the line.
    Indent(int),
}

/// The document sink itself: a genco token stream for the Nix dialect,
/// held opaquely.  (genco's `Tokens<L>` is generic over a language
/// trait, which cannot be declared here, so the stream lives in a
/// hidden field instead.)  Its contents are reached only through
/// [`sink_items`].
#[verifier::external_body]
pub struct Sink {
    toks: genco::lang::nix::Tokens,
}

/// The items held by the sink's token stream, in order: `Text` for a
/// buffered string literal, `Push` for a line break, `Line` for a blank
/// line, and `Indent` for a stored indentation change.
pub uninterp spec fn sink_items(t: Sink) -> Seq<DocItem>;

/// The effect of genco's `Tokens::push` on the buffered items: trailing
/// `Push` items are dropped, a trailing `Line` item absorbs the break,
/// and otherwise a `Push` item is recorded.
pub open spec fn norm_push(items: Seq<DocItem>) -> Seq<DocItem>
    decreases items.len(),
{
    if items.len() == 0 {
        seq![DocItem::Push]
    } else {
        match items.last() {
            DocItem::Push => norm_push(items.drop_last()),
            DocItem::Line => items,
            _ => items.push(DocItem::Push),
        }
    }
}

/// The effect of genco's `Tokens::line` on the buffered items: trailing
/// `Push` and `Line` items are dropped, then a `Line` item is recorded.
pub open spec fn norm_line(items: Seq<DocItem>) -> Seq<DocItem>
    decreases items.len(),
{
    if items.len() == 0 {
        seq![DocItem::Line]
    } else {
        match items.last() {
            DocItem::Push => norm_line(items.drop_last()),
            DocItem::Line => norm_line(items.drop_last()),
            _ => items.push(DocItem::Line),
        }
    }
}

/// The effect of genco's internal indentation change on the buffered
/// items: trailing whitespace items are dropped, adjacent indentation
/// items merge into `n`, and a nonzero result is recorded.
pub open spec fn norm_indent(items: Seq<DocItem>, n: int) -> Seq<DocItem>
    decreases items.len(),
{
    if items.len() == 0 {
        if n == 0 {
            items
        } else {
            items.push(DocItem::Indent(n))
        }
    } else {
        match items.last() {
            DocItem::Push => norm_indent(items.drop_last(), n),
            DocItem::Line => norm_indent(items.drop_last(), n),
            DocItem::Indent(u) => norm_indent(items.drop_last(), n + u),
            _ => if n == 0 {
                items
            } else {
                items.push(DocItem::Indent(n))
            },
        }
    }
}

/// The pending-whitespace state of the formatter.
pub enum Ws {
    /// Nothing has been written yet; breaks and blanks are ignored.
    Start,
    /// Text continues on the current line.
    Flow,
    /// A line break is pending.
    Brk,
    /// A blank line is pending.
    Blank,
}

/// The formatter state: finished lines, the current line, the pending
/// whitespace, and the indentation level.
#[verifier::ext_equal]
pub struct DocState {
    pub done: Seq<Seq<char>>,
    pub cur: Seq<char>,
    pub ws: Ws,
    pub ind: int,
}

/// The formatter's start state.
pub open spec fn init_state() -> DocState {
    DocState { done: Seq::empty(), cur: Seq::empty(), ws: Ws::Start, ind: 0 }
}

/// Four spaces per indentation level; never negative.
pub open spec fn ind_spaces(n: int) -> Seq<char>
    decreases n,
{
    if n <= 0 {
        Seq::empty()
    } else {
        ind_spaces(n - 1) + seq![' ', ' ', ' ', ' ']
    }
}

/// A pending line break on top of the given pending whitespace: ignored
/// before the first text and never weakening a pending blank line.
pub open spec fn ws_break(w: Ws) -> Ws {
    match w {
        Ws::Start => Ws::Start,
        Ws::Blank => Ws::Blank,
        _ => Ws::Brk,
    }
}

/// One formatting step.  Text first realizes the pending whitespace —
/// nothing at the start or in flowing text, one new line after a break,
/// an empty line in between after a blank — writes the indentation and
/// the text, and flows on.  Breaks, blanks and indentation changes only
/// update the pending state; empty text and zero indentation changes do
/// nothing.
pub open spec fn doc_step(st: DocState, it: DocItem) -> DocState {
    match it {
        DocItem::Text(s) => if s.len() == 0 {
            st
        } else {
            match st.ws {
                Ws::Start => DocState {
                    cur: st.cur + ind_spaces(st.ind) + s,
                    ws: Ws::Flow,
                    ..st
                },
                Ws::Flow => DocState { cur: st.cur + s, ws: Ws::Flow, ..st },
                Ws::Brk => DocState {
                    done: st.done.push(st.cur),
                    cur: ind_spaces(st.ind) + s,
                    ws: Ws::Flow,
                    ..st
                },
                Ws::Blank => DocState {
                    done: st.done.push(st.cur).push(Seq::empty()),
                    cur: ind_spaces(st.ind) + s,
                    ws: Ws::Flow,
                    ..st
                },
            }
        },
        DocItem::Push => DocState { ws: ws_break(st.ws), ..st },
        DocItem::Line => DocState {
            ws: match st.ws {
                Ws::Start => Ws::Start,
                _ => Ws::Blank,
            },
            ..st
        },
        DocItem::Indent(n) => if n == 0 {
            st
        } else {
            DocState { ws: ws_break(st.ws), ind: st.ind + n, ..st }
        },
    }
}

/// The formatter state after processing `items` from `st`.
pub open spec fn doc_run(st: DocState, items: Seq<DocItem>) -> DocState
    decreases items.len(),
{
    if items.len() == 0 {
        st
    } else {
        doc_step(doc_run(st, items.drop_last()), items.last())
    }
}

/// The output lines of a buffered item sequence: the formatter is run
/// from its start state and the current line is flushed at the end.
pub open spec fn doc_lines(items: Seq<DocItem>) -> Seq<Seq<char>> {
    let f = doc_run(init_state(), items);
    f.done.push(f.cur)
}

/// The output lines of a state if its current line were flushed now:
/// what [`doc_lines`] returns once the items end here.
pub open spec fn flushed(st: DocState) -> Seq<Seq<char>> {
    st.done.push(st.cur)
}

/// The flushed lines after one text item: at the start or in flowing
/// text the last line is extended — with the indentation written only
/// at the very start of the output — a pending break finishes it and
/// opens an indented one, and a pending blank line leaves one empty
/// line in between.
pub open spec fn text_flush(fl: Seq<Seq<char>>, ws: Ws, k: int, s: Seq<char>) -> Seq<
    Seq<char>,
> {
    match ws {
        Ws::Start => fl.update(fl.len() - 1, fl.last() + ind_spaces(k) + s),
        Ws::Flow => fl.update(fl.len() - 1, fl.last() + s),
        Ws::Brk => fl.push(ind_spaces(k) + s),
        Ws::Blank => fl.push(Seq::empty()).push(ind_spaces(k) + s),
    }
}

/// One text step, seen through the flushed lines.
pub proof fn lemma_text_flush(st: DocState, s: Seq<char>)
    requires
        s.len() > 0,
    ensures
        flushed(doc_step(st, DocItem::Text(s))) == text_flush(flushed(st), st.ws, st.ind, s),
        doc_step(st, DocItem::Text(s)).ws == Ws::Flow,
        doc_step(st, DocItem::Text(s)).ind == st.ind,
{
    let st2 = doc_step(st, DocItem::Text(s));
    match st.ws {
        Ws::Start => {
            assert(flushed(st2) =~= flushed(st).update(
                flushed(st).len() - 1,
                flushed(st).last() + ind_spaces(st.ind) + s,
            ));
        },
        Ws::Flow => {
            assert(flushed(st2) =~= flushed(st).update(
                flushed(st).len() - 1,
                flushed(st).last() + s,
            ));
        },
        Ws::Brk => {
            assert(flushed(st2) =~= flushed(st).push(ind_spaces(st.ind) + s));
        },
        Ws::Blank => {
            assert(flushed(st2) =~= flushed(st).push(Seq::empty()).push(ind_spaces(st.ind) + s));
        },
    }
}

/// Settled lines are settled: processing more items never changes the
/// lines already finished.
pub proof fn lemma_doc_run_keeps_done(st: DocState, items: Seq<DocItem>)
    ensures
        doc_run(st, items).done.len() >= st.done.len(),
        doc_run(st, items).done.take(st.done.len() as int) == st.done,
    decreases items.len(),
{
    if items.len() > 0 {
        lemma_doc_run_keeps_done(st, items.drop_last());
        let m = doc_run(st, items.drop_last());
        let f = doc_run(st, items);
        assert(f == doc_step(m, items.last()));
        assert(f.done.len() >= m.done.len());
        assert(f.done.take(m.done.len() as int) =~= m.done);
        assert(f.done.take(st.done.len() as int) =~= m.done.take(st.done.len() as int));
    } else {
        assert(doc_run(st, items).done.take(st.done.len() as int) =~= st.done);
    }
}

/// Running the formatter over a concatenation runs it over both parts.
pub proof fn lemma_doc_run_concat(st: DocState, a: Seq<DocItem>, b: Seq<DocItem>)
    ensures
        doc_run(st, a + b) == doc_run(doc_run(st, a), b),
    decreases b.len(),
{
    if b.len() == 0 {
        assert(a + b =~= a);
    } else {
        assert((a + b).drop_last() =~= a + b.drop_last());
        assert((a + b).last() == b.last());
        lemma_doc_run_concat(st, a, b.drop_last());
    }
}

/// A break after anything but whitespace records a `Push` item.
pub proof fn lemma_norm_push_after_text(items: Seq<DocItem>)
    requires
        items.len() > 0,
        !(items.last() matches DocItem::Push),
        !(items.last() matches DocItem::Line),
    ensures
        norm_push(items) == items.push(DocItem::Push),
{
}

/// An indentation change after text records an `Indent` item.
pub proof fn lemma_norm_indent_after_text(items: Seq<DocItem>, n: int)
    requires
        items.len() > 0,
        n != 0,
        items.last() matches DocItem::Text(_),
    ensures
        norm_indent(items, n) == items.push(DocItem::Indent(n)),
{
}

/// An indentation change drops a recorded break after text and records
/// the `Indent` item in its place.
pub proof fn lemma_norm_indent_pops_push(items: Seq<DocItem>, n: int)
    requires
        items.len() >= 2,
        n != 0,
        items.last() == DocItem::Push,
        items.drop_last().last() matches DocItem::Text(_),
    ensures
        norm_indent(items, n) == items.drop_last().push(DocItem::Indent(n)),
{
    assert(norm_indent(items, n) == norm_indent(items.drop_last(), n));
}

/// A blank line after text records a `Line` item.
pub proof fn lemma_norm_line_after_text(items: Seq<DocItem>)
    requires
        items.len() > 0,
        items.last() matches DocItem::Text(_),
    ensures
        norm_line(items) == items.push(DocItem::Line),
{
}

/// The items of a run of single-line entries: each entry's text
/// followed by a line break, in the entries' order.
pub open spec fn entries_items(texts: Seq<Seq<char>>) -> Seq<DocItem>
    decreases texts.len(),
{
    if texts.len() == 0 {
        Seq::empty()
    } else {
        entries_items(texts.drop_last()) + seq![
            DocItem::Text(texts.last()),
            DocItem::Push,
        ]
    }
}

/// The shape of a nonempty entry run: it ends with the last entry's
/// text and its break.
pub proof fn lemma_entries_items_shape(texts: Seq<Seq<char>>)
    requires
        texts.len() > 0,
    ensures
        entries_items(texts).len() >= 2,
        entries_items(texts).last() == DocItem::Push,
        entries_items(texts).drop_last().last() == DocItem::Text(texts.last()),
        entries_items(texts).drop_last() == entries_items(texts.drop_last()).push(
            DocItem::Text(texts.last()),
        ),
{
    let e = entries_items(texts.drop_last());
    let two = seq![DocItem::Text(texts.last()), DocItem::Push];
    assert(entries_items(texts) == e + two);
    assert((e + two).drop_last() =~= e.push(DocItem::Text(texts.last())));
}

/// The output lines of a run of entries at indentation level `k`.
pub open spec fn entry_lines(texts: Seq<Seq<char>>, k: int) -> Seq<Seq<char>> {
    texts.map_values(|t: Seq<char>| ind_spaces(k) + t)
}

/// Running the formatter over three items is three steps.
pub proof fn lemma_doc_run_three(st: DocState, a: DocItem, b: DocItem, c: DocItem)
    ensures
        doc_run(st, seq![a, b, c]) == doc_step(doc_step(doc_step(st, a), b), c),
{
    let s = seq![a, b, c];
    assert(s.last() == c);
    assert(s.drop_last() =~= seq![a, b]);
    lemma_doc_run_two(st, a, b);
    assert(doc_run(st, s) == doc_step(doc_run(st, s.drop_last()), c));
}

/// Running the formatter over four items is four steps.
pub proof fn lemma_doc_run_four(st: DocState, a: DocItem, b: DocItem, c: DocItem, d: DocItem)
    ensures
        doc_run(st, seq![a, b, c, d]) == doc_step(
            doc_step(doc_step(doc_step(st, a), b), c),
            d,
        ),
{
    assert(seq![a, b, c, d] =~= seq![a, b] + seq![c, d]);
    lemma_doc_run_concat(st, seq![a, b], seq![c, d]);
    lemma_doc_run_two(st, a, b);
    lemma_doc_run_two(doc_run(st, seq![a, b]), c, d);
}

/// Whether an item sequence holds no blank-line item, and so can never
/// emit a blank separator line.
pub open spec fn no_blank_items(items: Seq<DocItem>) -> bool {
    forall|i: int| 0 <= i < items.len() ==> !((#[trigger] items[i]) matches DocItem::Line)
}

/// Concatenation keeps the absence of blank-line items.
pub proof fn lemma_no_blank_concat(a: Seq<DocItem>, b: Seq<DocItem>)
    requires
        no_blank_items(a),
        no_blank_items(b),
    ensures
        no_blank_items(a + b),
{
    assert(forall|i: int| 0 <= i < a.len() ==> (a + b)[i] == a[i]);
    assert(forall|i: int| a.len() <= i < a.len() + b.len() ==> (a + b)[i] == b[i - a.len()]);
}

/// An entry run holds only text and breaks, never a blank line.
pub proof fn lemma_entries_no_blank(texts: Seq<Seq<char>>)
    ensures
        no_blank_items(entries_items(texts)),
    decreases texts.len(),
{
    if texts.len() > 0 {
        lemma_entries_no_blank(texts.drop_last());
        let two = seq![DocItem::Text(texts.last()), DocItem::Push];
        assert(no_blank_items(two));
        lemma_no_blank_concat(entries_items(texts.drop_last()), two);
    }
}

/// A prefix keeps the absence of blank-line items.
pub proof fn lemma_no_blank_drop_last(items: Seq<DocItem>)
    requires
        items.len() > 0,
        no_blank_items(items),
    ensures
        no_blank_items(items.drop_last()),
{
    assert(forall|i: int|
        0 <= i < items.len() - 1 ==> (#[trigger] items.drop_last()[i]) == items[i]);
}

/// Running the formatter over a single item is one step.
pub proof fn lemma_doc_run_one(st: DocState, a: DocItem)
    ensures
        doc_run(st, seq![a]) == doc_step(st, a),
{
    reveal_with_fuel(doc_run, 2);
    assert(seq![a].last() == a);
    assert(seq![a].drop_last() =~= Seq::<DocItem>::empty());
    assert(doc_run(st, seq![a].drop_last()) == st);
}

/// Running the formatter over two items is two steps.
pub proof fn lemma_doc_run_two(st: DocState, a: DocItem, b: DocItem)
    ensures
        doc_run(st, seq![a, b]) == doc_step(doc_step(st, a), b),
{
    let s = seq![a, b];
    assert(s.last() == b);
    assert(s.drop_last() =~= seq![a]);
    lemma_doc_run_one(st, a);
    assert(doc_run(st, s) == doc_step(doc_run(st, s.drop_last()), b));
}

/// Processing a full entry run from a pending break finishes one line
/// per entry but the last, whose text remains the current line.
pub proof fn lemma_doc_run_entries(st: DocState, texts: Seq<Seq<char>>)
    requires
        st.ws == Ws::Brk,
        texts.len() > 0,
        forall|i: int| 0 <= i < texts.len() ==> (#[trigger] texts[i]).len() > 0,
    ensures
        doc_run(st, entries_items(texts)) == (DocState {
            done: st.done.push(st.cur) + entry_lines(texts.drop_last(), st.ind),
            cur: ind_spaces(st.ind) + texts.last(),
            ws: Ws::Brk,
            ind: st.ind,
        }),
    decreases texts.len(),
{
    let e = entries_items(texts);
    let prev = texts.drop_last();
    let two = seq![DocItem::Text(texts.last()), DocItem::Push];
    assert(e == entries_items(prev) + two);
    lemma_doc_run_concat(st, entries_items(prev), two);
    let m = doc_run(st, entries_items(prev));
    lemma_doc_run_two(m, DocItem::Text(texts.last()), DocItem::Push);
    assert(texts.last().len() > 0);
    if texts.len() == 1 {
        assert(entries_items(prev) == Seq::<DocItem>::empty());
        assert(m == st);
        assert(entry_lines(prev, st.ind) =~= Seq::<Seq<char>>::empty());
        assert(doc_run(st, e) =~= (DocState {
            done: st.done.push(st.cur) + entry_lines(texts.drop_last(), st.ind),
            cur: ind_spaces(st.ind) + texts.last(),
            ws: Ws::Brk,
            ind: st.ind,
        }));
    } else {
        lemma_doc_run_entries(st, prev);
        assert(m.ws == Ws::Brk && m.ind == st.ind);
        assert(m.done.push(m.cur) =~= st.done.push(st.cur) + entry_lines(prev, st.ind)) by {
            assert(entry_lines(prev, st.ind) =~= entry_lines(prev.drop_last(), st.ind).push(
                ind_spaces(st.ind) + prev.last(),
            ));
        }
        assert(doc_run(st, e) =~= (DocState {
            done: st.done.push(st.cur) + entry_lines(texts.drop_last(), st.ind),
            cur: ind_spaces(st.ind) + texts.last(),
            ws: Ws::Brk,
            ind: st.ind,
        }));
    }
}

/// Processing an entry run without its final break: as
/// [`lemma_doc_run_entries`], but the text still flows.
pub proof fn lemma_doc_run_entries_open(st: DocState, texts: Seq<Seq<char>>)
    requires
        st.ws == Ws::Brk,
        texts.len() > 0,
        forall|i: int| 0 <= i < texts.len() ==> (#[trigger] texts[i]).len() > 0,
    ensures
        doc_run(st, entries_items(texts).drop_last()) == (DocState {
            done: st.done.push(st.cur) + entry_lines(texts.drop_last(), st.ind),
            cur: ind_spaces(st.ind) + texts.last(),
            ws: Ws::Flow,
            ind: st.ind,
        }),
{
    lemma_entries_items_shape(texts);
    let prev = texts.drop_last();
    let open = entries_items(texts).drop_last();
    assert(open == entries_items(prev).push(DocItem::Text(texts.last())));
    assert(open =~= entries_items(prev) + seq![DocItem::Text(texts.last())]);
    lemma_doc_run_concat(st, entries_items(prev), seq![DocItem::Text(texts.last())]);
    let m = doc_run(st, entries_items(prev));
    lemma_doc_run_one(m, DocItem::Text(texts.last()));
    assert(texts.last().len() > 0);
    if texts.len() == 1 {
        assert(entries_items(prev) == Seq::<DocItem>::empty());
        assert(m == st);
        assert(entry_lines(prev, st.ind) =~= Seq::<Seq<char>>::empty());
        assert(doc_run(st, open) =~= (DocState {
            done: st.done.push(st.cur) + entry_lines(prev, st.ind),
            cur: ind_spaces(st.ind) + texts.last(),
            ws: Ws::Flow,
            ind: st.ind,
        }));
    } else {
        lemma_doc_run_entries(st, prev);
        assert(m.ws == Ws::Brk && m.ind == st.ind);
        assert(m.done.push(m.cur) =~= st.done.push(st.cur) + entry_lines(prev, st.ind)) by {
            assert(entry_lines(prev, st.ind) =~= entry_lines(prev.drop_last(), st.ind).push(
                ind_spaces(st.ind) + prev.last(),
            ));
        }
        assert(doc_run(st, open) =~= (DocState {
            done: st.done.push(st.cur) + entry_lines(prev, st.ind),
            cur: ind_spaces(st.ind) + texts.last(),
            ws: Ws::Flow,
            ind: st.ind,
        }));
    }
}

/// Relies on genco's `Tokens::new`: a fresh token stream holds no items.
#[verifier::external_body]
pub(crate) fn sink_new() -> (t: Sink)
    ensures
        sink_items(t) == Seq::<DocItem>::empty(),
{
    Sink { toks: genco::lang::nix::Tokens::new() }
}

/// Relies on genco's `Tokens::append` for `&str`, which records one
/// literal item at the end of the stream.
#[verifier::external_body]
pub(crate) fn sink_text(t: &mut Sink, s: &str)
    ensures
        sink_items(*final(t)) == sink_items(*old(t)).push(DocItem::Text(s@)),
{
    t.toks.append(s);
}

/// Relies on genco's `Tokens::push`, which drops trailing break items,
/// keeps a trailing blank-line item, and otherwise records a break.
#[verifier::external_body]
pub(crate) fn sink_push(t: &mut Sink)
    ensures
        sink_items(*final(t)) == norm_push(sink_items(*old(t))),
{
    t.toks.push();
}

/// Relies on genco's `Tokens::line`, which drops trailing break and
/// blank-line items and records a blank line.
#[verifier::external_body]
pub(crate) fn sink_line(t: &mut Sink)
    ensures
        sink_items(*final(t)) == norm_line(sink_items(*old(t))),
{
    t.toks.line();
}

/// Relies on genco's `Tokens::indent`, which drops trailing whitespace
/// items, merges adjacent indentation items and records the sum.
#[verifier::external_body]
pub(crate) fn sink_indent(t: &mut Sink)
    ensures
        sink_items(*final(t)) == norm_indent(sink_items(*old(t)), 1),
{
    t.toks.indent();
}

/// Relies on genco's `Tokens::unindent`, which drops trailing
/// whitespace items, merges adjacent indentation items and records the
/// sum.
#[verifier::external_body]
pub(crate) fn sink_unindent(t: &mut Sink)
    ensures
        sink_items(*final(t)) == norm_indent(sink_items(*old(t)), -1),
{
    t.toks.unindent();
}

/// Relies on genco's `Tokens::to_vec` with the Nix dialect's default
/// four-space indentation: it formats the buffered items into one
/// string per output line, exactly as [`doc_lines`] states; formatting
/// into a vector of strings cannot fail for streams of the items this
/// crate records.
#[verifier::external_body]
pub(crate) fn sink_render(t: &Sink) -> (r: Vec<String>)
    ensures
        r@.map_values(|s: String| s@) == doc_lines(sink_items(*t)),
{
    t.toks.to_vec().unwrap_or_default()
}

/// Emit a run of single-line entries: each text on its own line.
pub(crate) fn emit_entries(t: &mut Sink, texts: &Vec<String>)
    ensures
        sink_items(*final(t)) == sink_items(*old(t)) + entries_items(
            texts@.map_values(|s: String| s@),
        ),
{
    let ghost all = texts@.map_values(|s: String| s@);
    let ghost base = sink_items(*t);
    let mut idx: usize = 0;
    while idx < texts.len()
        invariant
            idx <= texts@.len(),
            all == texts@.map_values(|s: String| s@),
            sink_items(*t) == base + entries_items(all.take(idx as int)),
        decreases texts@.len() - idx,
    {
        let ghost before = sink_items(*t);
        sink_text(t, texts[idx].as_str());
        proof {
            if idx == 0 && base.len() == 0 {
                assert(sink_items(*t).last() == DocItem::Text(all[idx as int]));
            }
            assert(sink_items(*t) == before.push(DocItem::Text(all[idx as int])));
            assert(sink_items(*t).len() > 0);
            assert(sink_items(*t).last() == DocItem::Text(all[idx as int]));
            lemma_norm_push_after_text(sink_items(*t));
        }
        sink_push(t);
        proof {
            let next = all.take(idx as int + 1);
            assert(next.drop_last() =~= all.take(idx as int));
            assert(next.last() == all[idx as int]);
            assert(sink_items(*t) =~= base + entries_items(next));
        }
        idx = idx + 1;
    }
    proof {
        assert(all.take(texts@.len() as int) =~= all);
    }
}

} // verus!
