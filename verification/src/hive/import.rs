//! `Import`: one reference of a scope's import set — a dotted path into
//! the output namespace, optionally rooted at the local name of an
//! [`Inherit`] binding.

use vstd::prelude::*;
use crate::hive::inherit::Inherit;
use crate::hive::inherit::InheritView;
use crate::sink::DocItem;
use crate::sink::DocState;
use crate::sink::Sink;
use crate::sink::Ws;
use crate::sink::doc_lines;
use crate::sink::doc_run;
use crate::sink::emit_entries;
use crate::sink::entries_items;
use crate::sink::entry_lines;
use crate::sink::flushed;
use crate::sink::ind_spaces;
use crate::sink::init_state;
use crate::sink::lemma_doc_run_concat;
use crate::sink::lemma_doc_run_entries_open;
use crate::sink::lemma_doc_run_two;
use crate::sink::lemma_entries_no_blank;
use crate::sink::lemma_no_blank_concat;
use crate::sink::lemma_no_blank_drop_last;
use crate::sink::no_blank_items;
use crate::sink::lemma_entries_items_shape;
use crate::sink::lemma_norm_indent_after_text;
use crate::sink::lemma_norm_indent_pops_push;
use crate::sink::sink_indent;
use crate::sink::sink_items;
use crate::sink::sink_new;
use crate::sink::sink_render;
use crate::sink::sink_text;
use crate::sink::sink_unindent;

verus! {

/// An import reference: a dotted path, optionally rooted at a binding.
///
/// With no binding the `path` is rendered verbatim; with a binding the
/// rendered text is `<binding.name>.<path>`, or the binding's name alone
/// when `path` is empty.
pub struct Import {
    /// The binding whose local name roots the path, if any.
    pub inherit: Option<Inherit>,
    /// The dotted path below the root.
    pub path: String,
}

/// The mathematical value of an [`Import`].
pub struct ImportView {
    pub inherit: Option<InheritView>,
    pub path: Seq<char>,
}

impl View for Import {
    type V = ImportView;

    open spec fn view(&self) -> ImportView {
        ImportView {
            inherit: match self.inherit {
                Option::Some(i) => Option::Some(i@),
                Option::None => Option::None,
            },
            path: self.path@,
        }
    }
}

impl Clone for Import {
    fn clone(&self) -> (r: Self)
        ensures
            r@ == self@,
    {
        Import {
            inherit: match &self.inherit {
                Option::Some(i) => Option::Some(i.clone()),
                Option::None => Option::None,
            },
            path: self.path.clone(),
        }
    }
}

/// The text a reference renders to inside an import list.
pub open spec fn ref_text(v: ImportView) -> Seq<char> {
    match v.inherit {
        Option::Some(i) => if v.path.len() == 0 {
            i.name
        } else {
            i.name + "."@ + v.path
        },
        Option::None => v.path,
    }
}

impl Import {
    /// A reference rooted at a new binding of `var` from `path`,
    /// pointing at `name` below that root.
    pub fn new(path: &str, var: &str, name: &str) -> (r: Self)
        ensures
            r@ == (ImportView {
                inherit: Option::Some(InheritView { path: path@, name: var@ }),
                path: name@,
            }),
    {
        Import { inherit: Option::Some(Inherit::new(path, var)), path: String::from_str(name) }
    }

    /// A reference without a binding: `name` is rendered verbatim.
    pub fn new1(name: &str) -> (r: Self)
        ensures
            r@ == (ImportView { inherit: Option::None, path: name@ }),
    {
        Import { inherit: Option::None, path: String::from_str(name) }
    }

    /// A reference to a binding's local name alone, with no path below it.
    pub fn from_inherit(inherit: Inherit) -> (r: Self)
        ensures
            r@ == (ImportView { inherit: Option::Some(inherit@), path: Seq::<char>::empty() }),
    {
        Import { inherit: Option::Some(inherit), path: String::new() }
    }

    /// The standard disko module reference: `disko.nixosModules.disko`,
    /// rooted at the `disko` binding from `inputs`.
    pub fn disko_module() -> (r: Self)
        ensures
            r@ == (ImportView {
                inherit: Option::Some(InheritView { path: "inputs"@, name: "disko"@ }),
                path: "nixosModules.disko"@,
            }),
    {
        Import {
            inherit: Option::Some(Inherit::disko()),
            path: String::from_str("nixosModules.disko"),
        }
    }

    /// The cell-rooted hardware profile reference for `name`.
    pub fn cell_hardware_profiles(name: &str) -> (r: Self)
        ensures
            r@ == (ImportView { inherit: Option::None, path: "cell.hardwareProfiles."@ + name@ }),
    {
        let mut path = String::from_str("cell.hardwareProfiles.");
        path.append(name);
        Import { inherit: Option::None, path }
    }

    /// The cell-rooted NixOS profile reference for `name`.
    pub fn cell_nixos_profiles(name: &str) -> (r: Self)
        ensures
            r@ == (ImportView { inherit: Option::None, path: "cell.nixosProfiles."@ + name@ }),
    {
        let mut path = String::from_str("cell.nixosProfiles.");
        path.append(name);
        Import { inherit: Option::None, path }
    }

    /// The cell-rooted disko configuration reference for `name`.
    pub fn cell_disko_configurations(name: &str) -> (r: Self)
        ensures
            r@ == (ImportView {
                inherit: Option::None,
                path: "cell.diskoConfigurations."@ + name@,
            }),
    {
        let mut path = String::from_str("cell.diskoConfigurations.");
        path.append(name);
        Import { inherit: Option::None, path }
    }

    /// The cell-rooted home configuration reference for `name`.
    pub fn cell_home_configurations(name: &str) -> (r: Self)
        ensures
            r@ == (ImportView {
                inherit: Option::None,
                path: "cell.homeConfigurations."@ + name@,
            }),
    {
        let mut path = String::from_str("cell.homeConfigurations.");
        path.append(name);
        Import { inherit: Option::None, path }
    }

    /// The cell-rooted NixOS module reference for `name`.
    pub fn cell_nixos_modules(name: &str) -> (r: Self)
        ensures
            r@ == (ImportView { inherit: Option::None, path: "cell.nixosModules."@ + name@ }),
    {
        let mut path = String::from_str("cell.nixosModules.");
        path.append(name);
        Import { inherit: Option::None, path }
    }

    /// The text this reference renders to inside an import list.
    pub fn render_text(&self) -> (r: String)
        ensures
            r@ == ref_text(self@),
    {
        match &self.inherit {
            Option::Some(i) => {
                if self.path.as_str().is_empty() {
                    let r = i.name.clone();
                    assert(r@ =~= ref_text(self@));
                    r
                } else {
                    let mut r = i.name.clone();
                    r.append(".");
                    r.append(self.path.as_str());
                    assert(r@ =~= ref_text(self@));
                    r
                }
            },
            Option::None => {
                let r = self.path.clone();
                r
            },
        }
    }
}

/// An ordered reference list, rendered as a bracketed block with one
/// reference per line; the order is exactly the order supplied.
pub struct Imports(pub Vec<Import>);

impl View for Imports {
    type V = Seq<ImportView>;

    open spec fn view(&self) -> Seq<ImportView> {
        self.0@.map_values(|i: Import| i@)
    }
}

/// The rendered texts of a sequence of references, in the same order.
pub open spec fn ref_texts(refs: Seq<ImportView>) -> Seq<Seq<char>> {
    refs.map_values(|r: ImportView| ref_text(r))
}

/// The sink items of a rendered reference list: an empty list is an
/// empty bracket pair with no interior lines; otherwise the references
/// stand between the brackets, one per line, one level deeper.
pub open spec fn imports_items(refs: Seq<ImportView>) -> Seq<DocItem> {
    if refs.len() == 0 {
        seq![DocItem::Text("["@), DocItem::Text("]"@)]
    } else {
        seq![DocItem::Text("["@), DocItem::Indent(1)] + entries_items(ref_texts(refs)).drop_last()
            + seq![DocItem::Indent(-1), DocItem::Text("]"@)]
    }
}

/// Order preservation: a reference list renders as the opening bracket,
/// then one line per reference — holding exactly that reference's text,
/// one level deeper, in exactly the order the references were supplied —
/// then the closing bracket.  In particular, any permutation of the
/// references permutes the interior lines in the same way.  An empty
/// list renders as an empty bracket pair with no interior lines.
pub proof fn lemma_reference_list_lines(refs: Seq<ImportView>)
    requires
        forall|i: int| 0 <= i < refs.len() ==> ref_text(#[trigger] refs[i]).len() > 0,
    ensures
        refs.len() == 0 ==> doc_lines(imports_items(refs)) == seq!["["@ + "]"@],
        refs.len() > 0 ==> doc_lines(imports_items(refs)) == seq!["["@] + entry_lines(
            ref_texts(refs),
            1,
        ) + seq!["]"@],
{
    reveal_strlit("[");
    reveal_strlit("]");
    let init = init_state();
    if refs.len() == 0 {
        lemma_doc_run_two(init, DocItem::Text("["@), DocItem::Text("]"@));
        let f = doc_run(init, imports_items(refs));
        assert(f.done =~= Seq::<Seq<char>>::empty());
        assert(f.cur =~= "["@ + "]"@);
        assert(doc_lines(imports_items(refs)) =~= seq!["["@ + "]"@]);
    } else {
        let texts = ref_texts(refs);
        assert(texts.len() == refs.len());
        assert(forall|i: int| 0 <= i < texts.len() ==> (#[trigger] texts[i]).len() > 0);
        let a = seq![DocItem::Text("["@), DocItem::Indent(1)];
        let b = entries_items(texts).drop_last();
        let c = seq![DocItem::Indent(-1), DocItem::Text("]"@)];
        assert(imports_items(refs) == a + b + c);
        lemma_doc_run_concat(init, a + b, c);
        lemma_doc_run_concat(init, a, b);
        lemma_doc_run_two(init, DocItem::Text("["@), DocItem::Indent(1));
        let st1 = doc_run(init, a);
        assert(st1 =~= (DocState { done: Seq::empty(), cur: "["@, ws: Ws::Brk, ind: 1 })) by {
            assert(Seq::<char>::empty() + ind_spaces(0) + "["@ =~= "["@);
        }
        lemma_doc_run_entries_open(st1, texts);
        let st2 = doc_run(st1, b);
        lemma_doc_run_two(st2, DocItem::Indent(-1), DocItem::Text("]"@));
        let st3 = doc_run(st2, c);
        assert(st3.cur =~= "]"@) by {
            assert(ind_spaces(0) + "]"@ =~= "]"@);
        }
        assert(st3.done == st2.done.push(st2.cur));
        assert(doc_lines(imports_items(refs)) == st3.done.push(st3.cur));
        assert(st3.done.push(st3.cur) =~= seq!["["@] + entry_lines(texts, 1) + seq!["]"@]) by {
            assert(st2.done =~= seq!["["@] + entry_lines(texts.drop_last(), 1));
            assert(entry_lines(texts, 1) =~= entry_lines(texts.drop_last(), 1).push(
                ind_spaces(1) + texts.last(),
            ));
        }
    }
}

/// The output lines after a reference list continues the current line
/// at indentation level `k`: the opening bracket extends that line,
/// each reference stands on its own line one level deeper, and the
/// closing bracket returns to level `k`; an empty list extends the
/// line with the empty bracket pair instead.
pub open spec fn imports_extend_lines(fl: Seq<Seq<char>>, k: int, refs: Seq<ImportView>) -> Seq<
    Seq<char>,
> {
    if refs.len() == 0 {
        fl.update(fl.len() - 1, fl.last() + "["@ + "]"@)
    } else {
        fl.update(fl.len() - 1, fl.last() + "["@) + entry_lines(ref_texts(refs), k + 1) + seq![
            ind_spaces(k) + "]"@,
        ]
    }
}

/// A reference list that continues the current line emits exactly
/// [`imports_extend_lines`], and the closing bracket still flows.
pub proof fn lemma_imports_state(st: DocState, refs: Seq<ImportView>)
    requires
        st.ws == Ws::Flow,
        forall|i: int| 0 <= i < refs.len() ==> ref_text(#[trigger] refs[i]).len() > 0,
    ensures
        doc_run(st, imports_items(refs)).ws == Ws::Flow,
        doc_run(st, imports_items(refs)).ind == st.ind,
        flushed(doc_run(st, imports_items(refs))) == imports_extend_lines(
            flushed(st),
            st.ind,
            refs,
        ),
{
    reveal_strlit("[");
    reveal_strlit("]");
    if refs.len() == 0 {
        lemma_doc_run_two(st, DocItem::Text("["@), DocItem::Text("]"@));
        let f = doc_run(st, imports_items(refs));
        assert(f.done == st.done && f.cur == st.cur + "["@ + "]"@);
        assert(flushed(f) =~= imports_extend_lines(flushed(st), st.ind, refs));
    } else {
        let texts = ref_texts(refs);
        assert(texts.len() == refs.len());
        assert(forall|i: int| 0 <= i < texts.len() ==> (#[trigger] texts[i]).len() > 0);
        let a = seq![DocItem::Text("["@), DocItem::Indent(1)];
        let b = entries_items(texts).drop_last();
        let c = seq![DocItem::Indent(-1), DocItem::Text("]"@)];
        assert(imports_items(refs) == a + b + c);
        lemma_doc_run_concat(st, a + b, c);
        lemma_doc_run_concat(st, a, b);
        lemma_doc_run_two(st, DocItem::Text("["@), DocItem::Indent(1));
        let st1 = doc_run(st, a);
        assert(st1.ws == Ws::Brk && st1.ind == st.ind + 1);
        assert(flushed(st1) =~= flushed(st).update(
            flushed(st).len() - 1,
            flushed(st).last() + "["@,
        ));
        lemma_doc_run_entries_open(st1, texts);
        let st2 = doc_run(st1, b);
        lemma_doc_run_two(st2, DocItem::Indent(-1), DocItem::Text("]"@));
        let st3 = doc_run(st2, c);
        assert(st3.ws == Ws::Flow && st3.ind == st.ind);
        assert(flushed(st2) =~= flushed(st1) + entry_lines(texts, st.ind + 1)) by {
            assert(entry_lines(texts, st.ind + 1) =~= entry_lines(
                texts.drop_last(),
                st.ind + 1,
            ).push(ind_spaces(st.ind + 1) + texts.last()));
        }
        assert(flushed(st3) =~= flushed(st2).push(ind_spaces(st.ind) + "]"@));
        assert(flushed(st3) =~= imports_extend_lines(flushed(st), st.ind, refs));
    }
}

/// A reference list holds only text, breaks and indentation changes,
/// never a blank line.
pub proof fn lemma_imports_items_no_blank(refs: Seq<ImportView>)
    ensures
        no_blank_items(imports_items(refs)),
{
    if refs.len() == 0 {
        assert(no_blank_items(seq![DocItem::Text("["@), DocItem::Text("]"@)]));
    } else {
        let texts = ref_texts(refs);
        lemma_entries_no_blank(texts);
        lemma_entries_items_shape(texts);
        lemma_no_blank_drop_last(entries_items(texts));
        let a = seq![DocItem::Text("["@), DocItem::Indent(1)];
        let c = seq![DocItem::Indent(-1), DocItem::Text("]"@)];
        assert(no_blank_items(a));
        assert(no_blank_items(c));
        lemma_no_blank_concat(a, entries_items(texts).drop_last());
        lemma_no_blank_concat(a + entries_items(texts).drop_last(), c);
    }
}

impl Imports {
    /// The rendered texts of the references, in order.
    fn texts(&self) -> (r: Vec<String>)
        ensures
            r@.map_values(|s: String| s@) == ref_texts(self@),
    {
        let mut r: Vec<String> = Vec::new();
        let mut idx: usize = 0;
        while idx < self.0.len()
            invariant
                idx <= self.0@.len(),
                r@.len() == idx,
                forall|n: int| 0 <= n < idx ==> (#[trigger] r@[n])@ == ref_text(self.0@[n]@),
            decreases self.0@.len() - idx,
        {
            r.push(self.0[idx].render_text());
            idx = idx + 1;
        }
        proof {
            assert(r@.map_values(|s: String| s@) =~= ref_texts(self@));
        }
        r
    }

    /// Emit the reference list onto the sink.
    pub fn format_into(&self, t: &mut Sink)
        ensures
            sink_items(*final(t)) == sink_items(*old(t)) + imports_items(self@),
    {
        let ghost base = sink_items(*t);
        sink_text(t, "[");
        if self.0.len() == 0 {
            sink_text(t, "]");
            proof {
                assert(self@.len() == 0);
                assert(sink_items(*t) =~= base + imports_items(self@));
            }
        } else {
            proof {
                lemma_norm_indent_after_text(sink_items(*t), 1);
            }
            sink_indent(t);
            let ghost prefix = base + seq![DocItem::Text("["@), DocItem::Indent(1)];
            proof {
                assert(sink_items(*t) =~= prefix);
            }
            let texts = self.texts();
            emit_entries(t, &texts);
            let ghost entries = entries_items(ref_texts(self@));
            proof {
                assert(self@.len() == self.0@.len());
                assert(ref_texts(self@).len() > 0);
                lemma_entries_items_shape(ref_texts(self@));
                let s = sink_items(*t);
                assert(s == prefix + entries);
                assert(s.last() == entries.last());
                Seq::<DocItem>::drop_last_distributes_over_add(prefix, entries);
                assert(s.drop_last() == prefix + entries.drop_last());
                assert(s.drop_last().last() == entries.drop_last().last());
                lemma_norm_indent_pops_push(s, -1);
            }
            sink_unindent(t);
            sink_text(t, "]");
            proof {
                assert(sink_items(*t) =~= base + imports_items(self@));
            }
        }
    }

    /// Render the reference list alone, as output lines.
    pub fn render_lines(&self) -> (r: Vec<String>)
        ensures
            r@.map_values(|s: String| s@) == doc_lines(imports_items(self@)),
    {
        let mut t = sink_new();
        self.format_into(&mut t);
        proof {
            assert(sink_items(t) =~= imports_items(self@));
        }
        sink_render(&t)
    }
}

} // verus!
