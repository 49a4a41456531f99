//! `Variable`: a computed local of a scope — a named record composing a
//! `home`/`pkgs`/`system` triple from caller-supplied sources.

use vstd::prelude::*;
use crate::hive::import::Import;
use crate::hive::import::ImportView;
use crate::hive::import::ref_text;
use crate::sink::DocItem;
use crate::sink::DocState;
use crate::sink::Sink;
use crate::sink::Ws;
use crate::sink::doc_run;
use crate::sink::flushed;
use crate::sink::ind_spaces;
use crate::sink::lemma_doc_run_concat;
use crate::sink::lemma_doc_run_four;
use crate::sink::lemma_doc_run_two;
use crate::sink::lemma_no_blank_concat;
use crate::sink::lemma_norm_indent_after_text;
use crate::sink::no_blank_items;
use crate::sink::lemma_norm_push_after_text;
use crate::sink::sink_indent;
use crate::sink::sink_items;
use crate::sink::sink_push;
use crate::sink::sink_text;
use crate::sink::sink_unindent;

verus! {

/// A computed local value, rendered inline in the scope body as
///
/// ```text
/// <name> = {
///     bee = {
///         home = <home>;
///         pkgs = <pkgs>;
///         system = "<system>";
///     };
/// };
/// ```
///
/// where the `home` field is present only when a home-management source
/// was supplied.  The `home` and `pkgs` sources may be rooted at
/// bindings; those bindings are then required by the enclosing scope.
pub struct Variable {
    /// The local's name, also usable as an import entry.
    pub name: String,
    /// The home-management source, if one was supplied.
    pub home: Option<Import>,
    /// The package-set source.
    pub pkgs: Import,
    /// The target system identifier, rendered as a quoted literal.
    pub system: String,
}

/// The mathematical value of a [`Variable`].
pub struct VariableView {
    pub name: Seq<char>,
    pub home: Option<ImportView>,
    pub pkgs: ImportView,
    pub system: Seq<char>,
}

impl View for Variable {
    type V = VariableView;

    open spec fn view(&self) -> VariableView {
        VariableView {
            name: self.name@,
            home: match self.home {
                Option::Some(h) => Option::Some(h@),
                Option::None => Option::None,
            },
            pkgs: self.pkgs@,
            system: self.system@,
        }
    }
}

impl Clone for Variable {
    fn clone(&self) -> (r: Self)
        ensures
            r@ == self@,
    {
        Variable {
            name: self.name.clone(),
            home: match &self.home {
                Option::Some(h) => Option::Some(h.clone()),
                Option::None => Option::None,
            },
            pkgs: self.pkgs.clone(),
            system: self.system.clone(),
        }
    }
}

impl Variable {
    /// The canonical constructor: a local called `name` whose record
    /// composes the optional home-management source, the required
    /// package-set source and the target system identifier.
    pub fn bee(name: &str, home_manager: Option<Import>, nixpkgs: Import, system: &str) -> (r:
        Self)
        ensures
            r@ == (VariableView {
                name: name@,
                home: match home_manager {
                    Option::Some(h) => Option::Some(h@),
                    Option::None => Option::None,
                },
                pkgs: nixpkgs@,
                system: system@,
            }),
    {
        Variable {
            name: String::from_str(name),
            home: home_manager,
            pkgs: nixpkgs,
            system: String::from_str(system),
        }
    }
}

/// The sink items of a rendered local: the record block, each field on
/// its own line one level deeper, ending on a fresh line.
pub open spec fn variable_items(v: VariableView) -> Seq<DocItem> {
    seq![
        DocItem::Text(v.name + " = {"@),
        DocItem::Indent(1),
        DocItem::Text("bee = {"@),
        DocItem::Indent(1),
    ] + (match v.home {
        Option::Some(h) => seq![
            DocItem::Text("home = "@ + ref_text(h) + ";"@),
            DocItem::Push,
        ],
        Option::None => Seq::<DocItem>::empty(),
    }) + seq![
        DocItem::Text("pkgs = "@ + ref_text(v.pkgs) + ";"@),
        DocItem::Push,
        DocItem::Text("system = \""@ + v.system + "\";"@),
        DocItem::Indent(-1),
        DocItem::Text("};"@),
        DocItem::Indent(-1),
        DocItem::Text("};"@),
        DocItem::Push,
    ]
}

/// A local's block holds only text, breaks and indentation changes,
/// never a blank line.
pub proof fn lemma_variable_items_no_blank(v: VariableView)
    ensures
        no_blank_items(variable_items(v)),
{
    let h = seq![
        DocItem::Text(v.name + " = {"@),
        DocItem::Indent(1),
        DocItem::Text("bee = {"@),
        DocItem::Indent(1),
    ];
    let m = match v.home {
        Option::Some(hm) => seq![
            DocItem::Text("home = "@ + ref_text(hm) + ";"@),
            DocItem::Push,
        ],
        Option::None => Seq::<DocItem>::empty(),
    };
    let t = seq![
        DocItem::Text("pkgs = "@ + ref_text(v.pkgs) + ";"@),
        DocItem::Push,
        DocItem::Text("system = \""@ + v.system + "\";"@),
        DocItem::Indent(-1),
        DocItem::Text("};"@),
        DocItem::Indent(-1),
        DocItem::Text("};"@),
        DocItem::Push,
    ];
    assert(variable_items(v) == h + m + t);
    assert(no_blank_items(h));
    assert(no_blank_items(m));
    assert(no_blank_items(t));
    lemma_no_blank_concat(h, m);
    lemma_no_blank_concat(h + m, t);
}

/// The output lines of a local's block at indentation level `k`.
pub open spec fn variable_lines(v: VariableView, k: int) -> Seq<Seq<char>> {
    seq![
        ind_spaces(k) + (v.name + " = {"@),
        ind_spaces(k + 1) + "bee = {"@,
    ] + (match v.home {
        Option::Some(h) => seq![ind_spaces(k + 2) + ("home = "@ + ref_text(h) + ";"@)],
        Option::None => Seq::<Seq<char>>::empty(),
    }) + seq![
        ind_spaces(k + 2) + ("pkgs = "@ + ref_text(v.pkgs) + ";"@),
        ind_spaces(k + 2) + ("system = \""@ + v.system + "\";"@),
        ind_spaces(k + 1) + "};"@,
        ind_spaces(k) + "};"@,
    ]
}

/// A local's block emits exactly its record lines, each on its own
/// line, and leaves a pending break behind.
pub proof fn lemma_variable_state(st: DocState, v: VariableView)
    requires
        st.ws == Ws::Brk,
    ensures
        doc_run(st, variable_items(v)).ws == Ws::Brk,
        doc_run(st, variable_items(v)).ind == st.ind,
        flushed(doc_run(st, variable_items(v))) == flushed(st) + variable_lines(v, st.ind),
{
    reveal_strlit(" = {");
    reveal_strlit("bee = {");
    reveal_strlit("home = ");
    reveal_strlit("pkgs = ");
    reveal_strlit("system = \"");
    reveal_strlit("\";");
    reveal_strlit("};");
    reveal_strlit(";");
    let k = st.ind;
    let h = seq![
        DocItem::Text(v.name + " = {"@),
        DocItem::Indent(1),
        DocItem::Text("bee = {"@),
        DocItem::Indent(1),
    ];
    let m = match v.home {
        Option::Some(hm) => seq![
            DocItem::Text("home = "@ + ref_text(hm) + ";"@),
            DocItem::Push,
        ],
        Option::None => Seq::<DocItem>::empty(),
    };
    let t = seq![
        DocItem::Text("pkgs = "@ + ref_text(v.pkgs) + ";"@),
        DocItem::Push,
        DocItem::Text("system = \""@ + v.system + "\";"@),
        DocItem::Indent(-1),
        DocItem::Text("};"@),
        DocItem::Indent(-1),
        DocItem::Text("};"@),
        DocItem::Push,
    ];
    assert(variable_items(v) == h + m + t);
    lemma_doc_run_concat(st, h + m, t);
    lemma_doc_run_concat(st, h, m);
    lemma_doc_run_four(
        st,
        DocItem::Text(v.name + " = {"@),
        DocItem::Indent(1),
        DocItem::Text("bee = {"@),
        DocItem::Indent(1),
    );
    let st_h = doc_run(st, h);
    assert(st_h.ws == Ws::Brk && st_h.ind == k + 2);
    assert(flushed(st_h) =~= flushed(st) + seq![
        ind_spaces(k) + (v.name + " = {"@),
        ind_spaces(k + 1) + "bee = {"@,
    ]);
    let st_m = doc_run(st_h, m);
    match v.home {
        Option::Some(hm) => {
            lemma_doc_run_two(
                st_h,
                DocItem::Text("home = "@ + ref_text(hm) + ";"@),
                DocItem::Push,
            );
            assert(st_m.ws == Ws::Brk && st_m.ind == k + 2);
            assert(flushed(st_m) =~= flushed(st_h) + seq![
                ind_spaces(k + 2) + ("home = "@ + ref_text(hm) + ";"@),
            ]);
        },
        Option::None => {
            assert(st_m == st_h);
        },
    }
    let t1 = seq![
        DocItem::Text("pkgs = "@ + ref_text(v.pkgs) + ";"@),
        DocItem::Push,
        DocItem::Text("system = \""@ + v.system + "\";"@),
        DocItem::Indent(-1),
    ];
    let t2 = seq![
        DocItem::Text("};"@),
        DocItem::Indent(-1),
        DocItem::Text("};"@),
        DocItem::Push,
    ];
    assert(t =~= t1 + t2);
    lemma_doc_run_concat(st_m, t1, t2);
    lemma_doc_run_four(
        st_m,
        DocItem::Text("pkgs = "@ + ref_text(v.pkgs) + ";"@),
        DocItem::Push,
        DocItem::Text("system = \""@ + v.system + "\";"@),
        DocItem::Indent(-1),
    );
    let st_t1 = doc_run(st_m, t1);
    assert(st_t1.ws == Ws::Brk && st_t1.ind == k + 1);
    assert(flushed(st_t1) =~= flushed(st_m) + seq![
        ind_spaces(k + 2) + ("pkgs = "@ + ref_text(v.pkgs) + ";"@),
        ind_spaces(k + 2) + ("system = \""@ + v.system + "\";"@),
    ]);
    lemma_doc_run_four(
        st_t1,
        DocItem::Text("};"@),
        DocItem::Indent(-1),
        DocItem::Text("};"@),
        DocItem::Push,
    );
    let st_t2 = doc_run(st_t1, t2);
    assert(st_t2.ws == Ws::Brk && st_t2.ind == k);
    assert(flushed(st_t2) =~= flushed(st_t1) + seq![
        ind_spaces(k + 1) + "};"@,
        ind_spaces(k) + "};"@,
    ]);
    assert(doc_run(st, variable_items(v)) == st_t2);
    assert(flushed(st_t2) =~= flushed(st) + variable_lines(v, k));
}

impl Variable {
    /// Emit the local's assignment block onto the sink.
    pub fn format_into(&self, t: &mut Sink)
        ensures
            sink_items(*final(t)) == sink_items(*old(t)) + variable_items(self@),
    {
        let ghost base = sink_items(*t);
        let mut head = self.name.clone();
        head.append(" = {");
        sink_text(t, head.as_str());
        proof {
            lemma_norm_indent_after_text(sink_items(*t), 1);
        }
        sink_indent(t);
        sink_text(t, "bee = {");
        proof {
            lemma_norm_indent_after_text(sink_items(*t), 1);
        }
        sink_indent(t);
        match &self.home {
            Option::Some(h) => {
                let mut line = String::from_str("home = ");
                line.append(h.render_text().as_str());
                line.append(";");
                sink_text(t, line.as_str());
                proof {
                    lemma_norm_push_after_text(sink_items(*t));
                }
                sink_push(t);
            },
            Option::None => {},
        }
        let mut pline = String::from_str("pkgs = ");
        pline.append(self.pkgs.render_text().as_str());
        pline.append(";");
        sink_text(t, pline.as_str());
        proof {
            lemma_norm_push_after_text(sink_items(*t));
        }
        sink_push(t);
        let mut sline = String::from_str("system = \"");
        sline.append(self.system.as_str());
        sline.append("\";");
        sink_text(t, sline.as_str());
        proof {
            lemma_norm_indent_after_text(sink_items(*t), -1);
        }
        sink_unindent(t);
        sink_text(t, "};");
        proof {
            lemma_norm_indent_after_text(sink_items(*t), -1);
        }
        sink_unindent(t);
        sink_text(t, "};");
        proof {
            lemma_norm_push_after_text(sink_items(*t));
        }
        sink_push(t);
        proof {
            assert(sink_items(*t) =~= base + variable_items(self@));
        }
    }
}

} // verus!
