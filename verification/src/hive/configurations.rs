//! `Configurations`: one machine's configuration scope — an ordered list
//! of configuration items (import references and computed locals) plus
//! the binding-deduplication engine that derives the scope's preamble —
//! and `NixosConfigurations`, the top-level collection of named scopes.

use vstd::prelude::*;
use crate::hive::import::Import;
use crate::hive::import::ImportView;
use crate::hive::import::Imports;
use crate::hive::import::imports_items;
use crate::hive::import::lemma_imports_items_no_blank;
use crate::hive::import::lemma_imports_state;
use crate::hive::import::ref_text;
use crate::hive::import::ref_texts;
use crate::hive::inherit::Inherit;
use crate::hive::inherit::InheritView;
use crate::hive::inherit::inherit_line;
use crate::hive::variable::Variable;
use crate::hive::variable::VariableView;
use crate::hive::variable::lemma_variable_items_no_blank;
use crate::hive::variable::lemma_variable_state;
use crate::hive::variable::variable_items;
use crate::hive::variable::variable_lines;
use crate::sink::DocItem;
use crate::sink::DocState;
use crate::sink::Sink;
use crate::sink::Ws;
use crate::sink::doc_lines;
use crate::sink::doc_run;
use crate::sink::doc_step;
use crate::sink::emit_entries;
use crate::sink::entries_items;
use crate::sink::entry_lines;
use crate::sink::flushed;
use crate::sink::ind_spaces;
use crate::sink::init_state;
use crate::sink::lemma_doc_run_concat;
use crate::sink::lemma_doc_run_entries_open;
use crate::sink::lemma_doc_run_keeps_done;
use crate::sink::lemma_doc_run_one;
use crate::sink::lemma_doc_run_three;
use crate::sink::lemma_doc_run_two;
use crate::sink::lemma_text_flush;
use crate::sink::lemma_entries_items_shape;
use crate::sink::lemma_no_blank_concat;
use crate::sink::lemma_norm_indent_after_text;
use crate::sink::lemma_norm_indent_pops_push;
use crate::sink::lemma_norm_line_after_text;
use crate::sink::lemma_norm_push_after_text;
use crate::sink::no_blank_items;
use crate::sink::sink_indent;
use crate::sink::text_flush;
use crate::sink::sink_items;
use crate::sink::sink_line;
use crate::sink::sink_new;
use crate::sink::sink_push;
use crate::sink::sink_render;
use crate::sink::sink_text;
use crate::sink::sink_unindent;

verus! {

/// One configuration item of a scope: an import reference or a computed
/// local.
pub enum ConfigurationType {
    /// An import reference, rendered as one entry of the import list.
    Import(Import),
    /// A computed local, rendered inline in the scope body; its name can
    /// be referenced by a plain [`ConfigurationType::Import`] entry.
    Local(Variable),
}

/// The mathematical value of a [`ConfigurationType`].
pub enum ConfigurationTypeView {
    Import(ImportView),
    Local(VariableView),
}

impl View for ConfigurationType {
    type V = ConfigurationTypeView;

    open spec fn view(&self) -> ConfigurationTypeView {
        match self {
            ConfigurationType::Import(i) => ConfigurationTypeView::Import(i@),
            ConfigurationType::Local(v) => ConfigurationTypeView::Local(v@),
        }
    }
}

impl Clone for ConfigurationType {
    fn clone(&self) -> (r: Self)
        ensures
            r@ == self@,
    {
        match self {
            ConfigurationType::Import(i) => ConfigurationType::Import(i.clone()),
            ConfigurationType::Local(v) => ConfigurationType::Local(v.clone()),
        }
    }
}

/// A construction-time failure of a scope.
#[derive(Debug, PartialEq, Eq, Structural)]
pub enum HiveError {
    /// Two distinct required bindings share a local name but differ in
    /// their source, so one deduplicated preamble cannot hold both.
    BindingNameCollision,
}

/// The sequence of binding values of a sequence of bindings.
pub open spec fn binds_view(s: Seq<Inherit>) -> Seq<InheritView> {
    s.map_values(|b: Inherit| b@)
}

/// The sequence of item values of a sequence of configuration items.
pub open spec fn items_view(s: Seq<ConfigurationType>) -> Seq<ConfigurationTypeView> {
    s.map_values(|c: ConfigurationType| c@)
}

/// The bindings a single binding slot contributes: one or none.
pub open spec fn opt_binding(o: Option<InheritView>) -> Seq<InheritView> {
    match o {
        Option::Some(i) => seq![i],
        Option::None => Seq::empty(),
    }
}

/// The bindings one local requires: its `home` source's binding, then
/// its `pkgs` source's binding.
pub open spec fn local_bindings(v: VariableView) -> Seq<InheritView> {
    (match v.home {
        Option::Some(h) => opt_binding(h.inherit),
        Option::None => Seq::empty(),
    }) + opt_binding(v.pkgs.inherit)
}

/// The bindings one configuration item requires.
pub open spec fn item_bindings(it: ConfigurationTypeView) -> Seq<InheritView> {
    match it {
        ConfigurationTypeView::Import(i) => opt_binding(i.inherit),
        ConfigurationTypeView::Local(v) => local_bindings(v),
    }
}

/// The bindings a sequence of locals requires, in order.
pub open spec fn locals_bindings(ls: Seq<VariableView>) -> Seq<InheritView>
    decreases ls.len(),
{
    if ls.len() == 0 {
        Seq::empty()
    } else {
        locals_bindings(ls.drop_last()) + local_bindings(ls.last())
    }
}

/// The bindings a sequence of references requires, in order.
pub open spec fn refs_bindings(rs: Seq<ImportView>) -> Seq<InheritView>
    decreases rs.len(),
{
    if rs.len() == 0 {
        Seq::empty()
    } else {
        refs_bindings(rs.drop_last()) + opt_binding(rs.last().inherit)
    }
}

/// All bindings a scope's items require, duplicates included: the
/// locals are traversed first, then the references, each in the order
/// stored.
pub open spec fn required_bindings(items: Seq<ConfigurationTypeView>) -> Seq<InheritView> {
    locals_bindings(scope_locals(items)) + refs_bindings(scope_refs(items))
}

/// The deduplication engine: duplicates removed, first-occurrence order
/// preserved.
pub open spec fn dedup_bindings(bs: Seq<InheritView>) -> Seq<InheritView>
    decreases bs.len(),
{
    if bs.len() == 0 {
        Seq::empty()
    } else {
        let d = dedup_bindings(bs.drop_last());
        if d.contains(bs.last()) {
            d
        } else {
            d.push(bs.last())
        }
    }
}

/// Deduplication keeps exactly the bindings that were required.
pub proof fn lemma_dedup_membership(bs: Seq<InheritView>, x: InheritView)
    ensures
        dedup_bindings(bs).contains(x) <==> bs.contains(x),
    decreases bs.len(),
{
    if bs.len() > 0 {
        let prev = bs.drop_last();
        lemma_dedup_membership(prev, x);
        assert(bs.contains(x) <==> (prev.contains(x) || bs.last() == x)) by {
            if bs.contains(x) {
                let i = choose|i: int| 0 <= i < bs.len() && bs[i] == x;
                if i < bs.len() - 1 {
                    assert(prev[i] == x);
                }
            }
            if prev.contains(x) {
                let i = choose|i: int| 0 <= i < prev.len() && prev[i] == x;
                assert(bs[i] == x);
            }
            if bs.last() == x {
                assert(bs[bs.len() - 1] == x);
            }
        }
        let d = dedup_bindings(prev);
        if !d.contains(bs.last()) {
            assert(forall|y: InheritView|
                d.push(bs.last()).contains(y) <==> (d.contains(y) || bs.last() == y)) by {
                assert(forall|y: InheritView| #[trigger]
                    d.contains(y) ==> d.push(bs.last()).contains(y)) by {
                    assert(forall|i: int|
                        0 <= i < d.len() ==> d.push(bs.last())[i] == #[trigger] d[i]);
                }
                assert(d.push(bs.last())[d.len() as int] == bs.last());
                assert(forall|y: InheritView| #[trigger]
                    d.push(bs.last()).contains(y) ==> (d.contains(y) || bs.last() == y)) by {
                    assert(forall|i: int|
                        0 <= i < d.len() ==> d[i] == #[trigger] d.push(bs.last())[i]);
                }
            }
        }
    }
}

/// Deduplication leaves no duplicates behind.
pub proof fn lemma_dedup_distinct(bs: Seq<InheritView>)
    ensures
        forall|i: int, j: int|
            0 <= i < j < dedup_bindings(bs).len() ==> dedup_bindings(bs)[i] != dedup_bindings(
                bs,
            )[j],
    decreases bs.len(),
{
    if bs.len() > 0 {
        let prev = bs.drop_last();
        lemma_dedup_distinct(prev);
        let d = dedup_bindings(prev);
        if !d.contains(bs.last()) {
            let d2 = d.push(bs.last());
            assert(forall|i: int, j: int| 0 <= i < j < d2.len() ==> d2[i] != d2[j]) by {
                assert(forall|i: int| 0 <= i < d.len() ==> d2[i] == #[trigger] d[i]);
                assert(d2[d.len() as int] == bs.last());
                assert(forall|i: int| 0 <= i < d.len() ==> #[trigger] d[i] != bs.last()) by {
                    assert(forall|i: int|
                        0 <= i < d.len() && d[i] == bs.last() ==> d.contains(bs.last()));
                }
            }
        }
    }
}

/// Deduplicating a sequence that has no duplicates changes nothing.
pub proof fn lemma_dedup_of_distinct(bs: Seq<InheritView>)
    requires
        forall|i: int, j: int| 0 <= i < j < bs.len() ==> bs[i] != bs[j],
    ensures
        dedup_bindings(bs) == bs,
    decreases bs.len(),
{
    if bs.len() == 0 {
        assert(dedup_bindings(bs) =~= bs);
    } else {
        let prev = bs.drop_last();
        assert(forall|i: int, j: int| 0 <= i < j < prev.len() ==> prev[i] != prev[j]) by {
            assert(forall|i: int| 0 <= i < prev.len() ==> prev[i] == bs[i]);
        }
        lemma_dedup_of_distinct(prev);
        assert(!prev.contains(bs.last())) by {
            if prev.contains(bs.last()) {
                let i = choose|i: int| 0 <= i < prev.len() && prev[i] == bs.last();
                assert(bs[i] == bs[bs.len() - 1]);
            }
        }
        assert(dedup_bindings(bs) =~= bs);
    }
}

/// The deduplication engine is idempotent: running it on its own
/// output changes nothing.
pub proof fn lemma_dedup_idempotent(bs: Seq<InheritView>)
    ensures
        dedup_bindings(dedup_bindings(bs)) == dedup_bindings(bs),
{
    lemma_dedup_distinct(bs);
    lemma_dedup_of_distinct(dedup_bindings(bs));
}

/// The position of the first occurrence of `x` in `bs`.
pub open spec fn first_index(bs: Seq<InheritView>, x: InheritView) -> int
    decreases bs.len(),
{
    if bs.len() == 0 {
        0
    } else if bs[0] == x {
        0
    } else {
        1 + first_index(bs.drop_first(), x)
    }
}

/// The first occurrence is an occurrence, and nothing before it is one.
pub proof fn lemma_first_index_spec(bs: Seq<InheritView>, x: InheritView)
    requires
        bs.contains(x),
    ensures
        0 <= first_index(bs, x) < bs.len(),
        bs[first_index(bs, x)] == x,
        forall|k: int| 0 <= k < first_index(bs, x) ==> bs[k] != x,
    decreases bs.len(),
{
    if bs[0] == x {
    } else {
        let rest = bs.drop_first();
        assert(rest.contains(x)) by {
            let i = choose|i: int| 0 <= i < bs.len() && bs[i] == x;
            assert(rest[i - 1] == x);
        }
        lemma_first_index_spec(rest, x);
        assert(forall|k: int| 1 <= k < bs.len() ==> bs[k] == rest[k - 1]);
    }
}

/// Appending an element does not move earlier first occurrences.
pub proof fn lemma_first_index_push(bs: Seq<InheritView>, b: InheritView, x: InheritView)
    requires
        bs.contains(x),
    ensures
        first_index(bs.push(b), x) == first_index(bs, x),
    decreases bs.len(),
{
    let bs2 = bs.push(b);
    assert(bs2[0] == bs[0]);
    if bs[0] == x {
    } else {
        let rest = bs.drop_first();
        assert(rest.contains(x)) by {
            let i = choose|i: int| 0 <= i < bs.len() && bs[i] == x;
            assert(rest[i - 1] == x);
        }
        lemma_first_index_push(rest, b, x);
        assert(bs2.drop_first() =~= rest.push(b));
    }
}

/// A fresh element's first occurrence is the appended position.
pub proof fn lemma_first_index_fresh(bs: Seq<InheritView>, b: InheritView)
    requires
        !bs.contains(b),
    ensures
        first_index(bs.push(b), b) == bs.len(),
    decreases bs.len(),
{
    let bs2 = bs.push(b);
    if bs.len() == 0 {
        assert(bs2[0] == b);
    } else {
        assert(bs2[0] == bs[0]);
        assert(bs[0] != b) by {
            assert(bs.contains(bs[0]));
        }
        let rest = bs.drop_first();
        assert(!rest.contains(b)) by {
            if rest.contains(b) {
                let i = choose|i: int| 0 <= i < rest.len() && rest[i] == b;
                assert(bs[i + 1] == b);
            }
        }
        lemma_first_index_fresh(rest, b);
        assert(bs2.drop_first() =~= rest.push(b));
    }
}

/// First-occurrence order preserved: the deduplicated bindings stand in
/// the order in which each binding was first required, not in any
/// sorted order.
pub proof fn lemma_dedup_first_occurrence_order(bs: Seq<InheritView>)
    ensures
        forall|n1: int, n2: int|
            0 <= n1 < n2 < dedup_bindings(bs).len() ==> first_index(
                bs,
                #[trigger] dedup_bindings(bs)[n1],
            ) < first_index(bs, #[trigger] dedup_bindings(bs)[n2]),
    decreases bs.len(),
{
    if bs.len() > 0 {
        let prev = bs.drop_last();
        lemma_dedup_first_occurrence_order(prev);
        let d = dedup_bindings(prev);
        assert(forall|n: int| 0 <= n < d.len() ==> prev.contains(#[trigger] d[n])) by {
            assert(forall|n: int| 0 <= n < d.len() ==> d.contains(#[trigger] d[n]));
            assert(forall|x: InheritView| #[trigger]
                d.contains(x) ==> prev.contains(x)) by {
                assert forall|x: InheritView| #[trigger] d.contains(x) implies prev.contains(
                    x,
                ) by {
                    lemma_dedup_membership(prev, x);
                }
            }
        }
        assert(bs =~= prev.push(bs.last()));
        assert(forall|n: int|
            0 <= n < d.len() ==> first_index(bs, #[trigger] d[n]) == first_index(
                prev,
                d[n],
            )) by {
            assert forall|n: int| 0 <= n < d.len() implies first_index(
                bs,
                #[trigger] d[n],
            ) == first_index(prev, d[n]) by {
                lemma_first_index_push(prev, bs.last(), d[n]);
            }
        }
        if !d.contains(bs.last()) {
            let d2 = d.push(bs.last());
            assert(!prev.contains(bs.last())) by {
                lemma_dedup_membership(prev, bs.last());
            }
            lemma_first_index_fresh(prev, bs.last());
            assert(first_index(bs, bs.last()) == prev.len());
            assert(forall|n: int|
                0 <= n < d.len() ==> first_index(bs, #[trigger] d2[n]) < prev.len()) by {
                assert(forall|n: int| 0 <= n < d.len() ==> d2[n] == #[trigger] d[n]);
                assert forall|n: int| 0 <= n < d.len() implies first_index(
                    bs,
                    #[trigger] d2[n],
                ) < prev.len() by {
                    lemma_first_index_spec(prev, d[n]);
                }
            }
            assert(d2[d.len() as int] == bs.last());
        }
    }
}

/// A requirement that is already present adds nothing: repeating a
/// binding requirement any number of times leaves the deduplicated
/// preamble bindings — and with them the rendered preamble — unchanged.
pub proof fn lemma_duplicate_requirement_dedups_away(bs: Seq<InheritView>, b: InheritView)
    requires
        bs.contains(b),
    ensures
        dedup_bindings(bs.push(b)) == dedup_bindings(bs),
{
    let bs2 = bs.push(b);
    assert(bs2.drop_last() =~= bs);
    assert(bs2.last() == b);
    lemma_dedup_membership(bs, b);
}

/// Whether two required bindings share a local name but differ in their
/// source — the binding-name collision of the error taxonomy.
pub open spec fn has_collision(bs: Seq<InheritView>) -> bool {
    exists|i: int, j: int|
        0 <= i < bs.len() && 0 <= j < bs.len() && bs[i].name == bs[j].name && bs[i].path
            != bs[j].path
}

/// Whether a sequence of bindings (with values `bs`) contains `b`.
fn contains_binding(v: &Vec<Inherit>, b: &Inherit) -> (r: bool)
    ensures
        r == binds_view(v@).contains(b@),
{
    let mut idx: usize = 0;
    while idx < v.len()
        invariant
            idx <= v@.len(),
            forall|k: int| 0 <= k < idx ==> binds_view(v@)[k] != b@,
        decreases v@.len() - idx,
    {
        if v[idx].same_binding(b) {
            assert(binds_view(v@)[idx as int] == b@);
            return true;
        }
        idx = idx + 1;
    }
    false
}

/// Remove duplicate bindings, keeping the first occurrence of each and
/// the order in which first occurrences appear.
pub fn dedup(bs: &Vec<Inherit>) -> (r: Vec<Inherit>)
    ensures
        binds_view(r@) == dedup_bindings(binds_view(bs@)),
{
    let ghost all = binds_view(bs@);
    let mut r: Vec<Inherit> = Vec::new();
    let mut idx: usize = 0;
    while idx < bs.len()
        invariant
            idx <= bs@.len(),
            all == binds_view(bs@),
            binds_view(r@) == dedup_bindings(all.take(idx as int)),
        decreases bs@.len() - idx,
    {
        let ghost prefix = all.take(idx as int);
        let ghost next = all.take(idx as int + 1);
        proof {
            assert(next.drop_last() =~= prefix);
            assert(next.last() == all[idx as int]);
        }
        if !contains_binding(&r, &bs[idx]) {
            r.push(bs[idx].clone());
            proof {
                assert(binds_view(r@) =~= dedup_bindings(prefix).push(all[idx as int]));
            }
        }
        idx = idx + 1;
    }
    proof {
        assert(all.take(bs@.len() as int) =~= all);
    }
    r
}

/// Whether the collected bindings hold a binding-name collision.
fn find_collision(bs: &Vec<Inherit>) -> (r: bool)
    ensures
        r == has_collision(binds_view(bs@)),
{
    let ghost all = binds_view(bs@);
    let mut i: usize = 0;
    while i < bs.len()
        invariant
            i <= bs@.len(),
            all == binds_view(bs@),
            forall|k: int, l: int|
                0 <= k < i && 0 <= l < all.len() ==> !(all[k].name == all[l].name && all[k].path
                    != all[l].path),
        decreases bs@.len() - i,
    {
        let mut j: usize = 0;
        while j < bs.len()
            invariant
                i < bs@.len(),
                j <= bs@.len(),
                all == binds_view(bs@),
                forall|l: int|
                    0 <= l < j ==> !(all[i as int].name == all[l].name && all[i as int].path
                        != all[l].path),
            decreases bs@.len() - j,
        {
            if bs[i].name == bs[j].name && !(bs[i].path == bs[j].path) {
                assert(all[i as int].name == all[j as int].name && all[i as int].path != all[
                    j as int].path);
                return true;
            }
            j = j + 1;
        }
        i = i + 1;
    }
    false
}

/// Collect the bindings one local requires onto `out`.
fn push_local_bindings(out: &mut Vec<Inherit>, v: &Variable)
    ensures
        binds_view(final(out)@) == binds_view(old(out)@) + local_bindings(v@),
{
    match &v.home {
        Option::Some(h) => {
            match &h.inherit {
                Option::Some(b) => {
                    out.push(b.clone());
                },
                Option::None => {},
            }
        },
        Option::None => {},
    }
    match &v.pkgs.inherit {
        Option::Some(b) => {
            out.push(b.clone());
        },
        Option::None => {},
    }
    assert(binds_view(out@) =~= binds_view(old(out)@) + local_bindings(v@));
}

/// Whether every binding of a sequence comes from the source `p`.
pub open spec fn bindings_from(bs: Seq<InheritView>, p: Seq<char>) -> bool {
    forall|n: int| 0 <= n < bs.len() ==> (#[trigger] bs[n]).path == p
}

/// Whether every binding an item requires comes from the source `p`.
pub open spec fn item_bindings_from(it: ConfigurationTypeView, p: Seq<char>) -> bool {
    bindings_from(item_bindings(it), p)
}

/// Concatenation keeps a uniform binding source.
proof fn lemma_bindings_from_concat(a: Seq<InheritView>, b: Seq<InheritView>, p: Seq<char>)
    requires
        bindings_from(a, p),
        bindings_from(b, p),
    ensures
        bindings_from(a + b, p),
{
    assert(forall|i: int| 0 <= i < a.len() ==> (a + b)[i] == a[i]);
    assert(forall|i: int| a.len() <= i < a.len() + b.len() ==> (a + b)[i] == b[i - a.len()]);
}

/// The bindings of a scope's locals keep a uniform source of the items.
proof fn lemma_locals_bindings_uniform_path(items: Seq<ConfigurationTypeView>, p: Seq<char>)
    requires
        forall|k: int| 0 <= k < items.len() ==> item_bindings_from(#[trigger] items[k], p),
    ensures
        bindings_from(locals_bindings(scope_locals(items)), p),
    decreases items.len(),
{
    if items.len() == 0 {
        assert(bindings_from(locals_bindings(scope_locals(items)), p));
    } else {
        let prefix = items.drop_last();
        assert(forall|k: int|
            0 <= k < prefix.len() ==> item_bindings_from(#[trigger] prefix[k], p)) by {
            assert(forall|k: int| 0 <= k < prefix.len() ==> prefix[k] == items[k]);
        }
        lemma_locals_bindings_uniform_path(prefix, p);
        assert(items.last() == items[items.len() - 1]);
        match items.last() {
            ConfigurationTypeView::Import(_) => {
                assert(scope_locals(items) == scope_locals(prefix) + Seq::<VariableView>::empty());
                assert(scope_locals(items) =~= scope_locals(prefix));
            },
            ConfigurationTypeView::Local(v) => {
                let ls = scope_locals(prefix);
                let ls2 = scope_locals(items);
                assert(ls2 == ls + seq![v]);
                assert(ls2.drop_last() =~= ls);
                assert(ls2.last() == v);
                assert(locals_bindings(ls2) == locals_bindings(ls) + local_bindings(v));
                assert(bindings_from(local_bindings(v), p));
                lemma_bindings_from_concat(locals_bindings(ls), local_bindings(v), p);
            },
        }
    }
}

/// The bindings of a scope's references keep a uniform source of the
/// items.
proof fn lemma_refs_bindings_uniform_path(items: Seq<ConfigurationTypeView>, p: Seq<char>)
    requires
        forall|k: int| 0 <= k < items.len() ==> item_bindings_from(#[trigger] items[k], p),
    ensures
        bindings_from(refs_bindings(scope_refs(items)), p),
    decreases items.len(),
{
    if items.len() == 0 {
        assert(bindings_from(refs_bindings(scope_refs(items)), p));
    } else {
        let prefix = items.drop_last();
        assert(forall|k: int|
            0 <= k < prefix.len() ==> item_bindings_from(#[trigger] prefix[k], p)) by {
            assert(forall|k: int| 0 <= k < prefix.len() ==> prefix[k] == items[k]);
        }
        lemma_refs_bindings_uniform_path(prefix, p);
        assert(items.last() == items[items.len() - 1]);
        match items.last() {
            ConfigurationTypeView::Local(_) => {
                assert(scope_refs(items) == scope_refs(prefix) + Seq::<ImportView>::empty());
                assert(scope_refs(items) =~= scope_refs(prefix));
            },
            ConfigurationTypeView::Import(i) => {
                let rs = scope_refs(prefix);
                let rs2 = scope_refs(items);
                assert(rs2 == rs + seq![i]);
                assert(rs2.drop_last() =~= rs);
                assert(rs2.last() == i);
                assert(refs_bindings(rs2) == refs_bindings(rs) + opt_binding(i.inherit));
                assert(bindings_from(opt_binding(i.inherit), p));
                lemma_bindings_from_concat(refs_bindings(rs), opt_binding(i.inherit), p);
            },
        }
    }
}

/// Every binding that the items as a whole require stems from one item.
proof fn lemma_required_bindings_uniform_path(items: Seq<ConfigurationTypeView>, p: Seq<char>)
    requires
        forall|k: int| 0 <= k < items.len() ==> item_bindings_from(#[trigger] items[k], p),
    ensures
        forall|n: int|
            0 <= n < required_bindings(items).len() ==> #[trigger] required_bindings(
                items,
            )[n].path == p,
{
    lemma_locals_bindings_uniform_path(items, p);
    lemma_refs_bindings_uniform_path(items, p);
    lemma_bindings_from_concat(
        locals_bindings(scope_locals(items)),
        refs_bindings(scope_refs(items)),
        p,
    );
}

/// Bindings that all come from one source cannot collide.
proof fn lemma_uniform_path_no_collision(bs: Seq<InheritView>, p: Seq<char>)
    requires
        forall|n: int| 0 <= n < bs.len() ==> #[trigger] bs[n].path == p,
    ensures
        !has_collision(bs),
{
}

/// Collect all bindings the items require: the locals' bindings first,
/// then the references', each in stored order.
pub fn collect_bindings(items: &Vec<ConfigurationType>) -> (r: Vec<Inherit>)
    ensures
        binds_view(r@) == required_bindings(items_view(items@)),
{
    let ghost all = items_view(items@);
    let mut r: Vec<Inherit> = Vec::new();
    let mut idx: usize = 0;
    while idx < items.len()
        invariant
            idx <= items@.len(),
            all == items_view(items@),
            binds_view(r@) == locals_bindings(scope_locals(all.take(idx as int))),
        decreases items@.len() - idx,
    {
        let ghost next = all.take(idx as int + 1);
        let ghost ls = scope_locals(all.take(idx as int));
        proof {
            assert(next.drop_last() =~= all.take(idx as int));
            assert(next.last() == all[idx as int]);
        }
        match &items[idx] {
            ConfigurationType::Local(v) => {
                push_local_bindings(&mut r, v);
                proof {
                    let ls2 = scope_locals(next);
                    assert(ls2 == ls + seq![v@]);
                    assert(ls2.drop_last() =~= ls);
                    assert(ls2.last() == v@);
                    assert(locals_bindings(ls2) == locals_bindings(ls) + local_bindings(v@));
                }
            },
            ConfigurationType::Import(_) => {
                proof {
                    assert(scope_locals(next) =~= ls);
                }
            },
        }
        idx = idx + 1;
    }
    proof {
        assert(all.take(all.len() as int) =~= all);
    }
    let ghost half = binds_view(r@);
    let mut jdx: usize = 0;
    while jdx < items.len()
        invariant
            jdx <= items@.len(),
            all == items_view(items@),
            half == locals_bindings(scope_locals(all)),
            binds_view(r@) == half + refs_bindings(scope_refs(all.take(jdx as int))),
        decreases items@.len() - jdx,
    {
        let ghost next = all.take(jdx as int + 1);
        let ghost rs = scope_refs(all.take(jdx as int));
        proof {
            assert(next.drop_last() =~= all.take(jdx as int));
            assert(next.last() == all[jdx as int]);
        }
        match &items[jdx] {
            ConfigurationType::Import(i) => {
                let ghost before = binds_view(r@);
                match &i.inherit {
                    Option::Some(b) => {
                        r.push(b.clone());
                        proof {
                            assert(binds_view(r@) =~= before.push(b@));
                        }
                    },
                    Option::None => {},
                }
                proof {
                    let rs2 = scope_refs(next);
                    assert(rs2 == rs + seq![i@]);
                    assert(rs2.drop_last() =~= rs);
                    assert(rs2.last() == i@);
                    assert(refs_bindings(rs2) == refs_bindings(rs) + opt_binding(i@.inherit));
                    assert(binds_view(r@) =~= half + refs_bindings(rs2));
                }
            },
            ConfigurationType::Local(_) => {
                proof {
                    assert(scope_refs(next) =~= rs);
                }
            },
        }
        jdx = jdx + 1;
    }
    proof {
        assert(all.take(all.len() as int) =~= all);
        assert(binds_view(r@) == required_bindings(all));
    }
    r
}

/// One machine's configuration scope: a name used as the aggregate key
/// (never rendered as data) plus the ordered configuration items that
/// constitute its import set and inline locals.
pub struct Configurations {
    /// The ordered configuration items.
    pub configurations: Vec<ConfigurationType>,
    /// The scope's name; used only as the key in a scope collection.
    pub name: String,
}

/// The mathematical value of a [`Configurations`] scope.
pub struct ConfigurationsView {
    pub name: Seq<char>,
    pub items: Seq<ConfigurationTypeView>,
}

impl View for Configurations {
    type V = ConfigurationsView;

    open spec fn view(&self) -> ConfigurationsView {
        ConfigurationsView { name: self.name@, items: items_view(self.configurations@) }
    }
}

/// The import-list entries of a scope: its import items, in order.
pub open spec fn scope_refs(items: Seq<ConfigurationTypeView>) -> Seq<ImportView>
    decreases items.len(),
{
    if items.len() == 0 {
        Seq::empty()
    } else {
        scope_refs(items.drop_last()) + (match items.last() {
            ConfigurationTypeView::Import(i) => seq![i],
            ConfigurationTypeView::Local(_) => Seq::<ImportView>::empty(),
        })
    }
}

/// The locals of a scope, in order.
pub open spec fn scope_locals(items: Seq<ConfigurationTypeView>) -> Seq<VariableView>
    decreases items.len(),
{
    if items.len() == 0 {
        Seq::empty()
    } else {
        scope_locals(items.drop_last()) + (match items.last() {
            ConfigurationTypeView::Import(_) => Seq::<VariableView>::empty(),
            ConfigurationTypeView::Local(v) => seq![v],
        })
    }
}

/// The name of the synthesized record local of the canonical machine
/// template for machine `name`.
pub open spec fn bee_local_name(name: Seq<char>) -> Seq<char> {
    "bee-"@ + name
}

/// The canonical machine template: the published, fixed item order for
/// one machine scope.  First the synthesized `home`/`pkgs`/`system`
/// local (home from the `home-manager` binding, packages from
/// `cell.pkgs.<name>`), then the import entries: the local by name, the
/// disk layout, the hardware profile, the home configuration, the
/// general modules, the general profiles, and the disko module rooted at
/// the `disko` binding.
pub open spec fn canonical_machine_items(name: Seq<char>) -> Seq<ConfigurationTypeView> {
    seq![
        ConfigurationTypeView::Local(
            VariableView {
                name: bee_local_name(name),
                home: Option::Some(
                    ImportView {
                        inherit: Option::Some(
                            InheritView { path: "inputs"@, name: "home-manager"@ },
                        ),
                        path: Seq::<char>::empty(),
                    },
                ),
                pkgs: ImportView { inherit: Option::None, path: "cell.pkgs."@ + name },
                system: "x86_64-linux"@,
            },
        ),
        ConfigurationTypeView::Import(
            ImportView { inherit: Option::None, path: bee_local_name(name) },
        ),
        ConfigurationTypeView::Import(
            ImportView { inherit: Option::None, path: "cell.diskoConfigurations."@ + name },
        ),
        ConfigurationTypeView::Import(
            ImportView { inherit: Option::None, path: "cell.hardwareProfiles."@ + name },
        ),
        ConfigurationTypeView::Import(
            ImportView { inherit: Option::None, path: "cell.homeConfigurations."@ + name },
        ),
        ConfigurationTypeView::Import(
            ImportView { inherit: Option::None, path: "cell.nixosModules."@ + name },
        ),
        ConfigurationTypeView::Import(
            ImportView { inherit: Option::None, path: "cell.nixosProfiles."@ + name },
        ),
        ConfigurationTypeView::Import(
            ImportView {
                inherit: Option::Some(InheritView { path: "inputs"@, name: "disko"@ }),
                path: "nixosModules.disko"@,
            },
        ),
    ]
}

/// The parameterized canonical machine template: like
/// [`canonical_machine_items`], but the home-management source is
/// optional (the home configuration entry is present only when it was
/// supplied), the package set comes from `<nixpkgs>.legacyPackages`
/// under an `inputs` binding, and the system identifier is supplied by
/// the caller.
pub open spec fn canonical_machine_items1(
    name: Seq<char>,
    home: Option<Seq<char>>,
    nixpkgs: Seq<char>,
    system: Seq<char>,
) -> Seq<ConfigurationTypeView> {
    seq![
        ConfigurationTypeView::Local(
            VariableView {
                name: bee_local_name(name),
                home: match home {
                    Option::Some(h) => Option::Some(
                        ImportView {
                            inherit: Option::Some(InheritView { path: "inputs"@, name: h }),
                            path: Seq::<char>::empty(),
                        },
                    ),
                    Option::None => Option::None,
                },
                pkgs: ImportView {
                    inherit: Option::Some(InheritView { path: "inputs"@, name: nixpkgs }),
                    path: "legacyPackages"@,
                },
                system: system,
            },
        ),
        ConfigurationTypeView::Import(
            ImportView { inherit: Option::None, path: bee_local_name(name) },
        ),
        ConfigurationTypeView::Import(
            ImportView { inherit: Option::None, path: "cell.diskoConfigurations."@ + name },
        ),
        ConfigurationTypeView::Import(
            ImportView { inherit: Option::None, path: "cell.hardwareProfiles."@ + name },
        ),
    ] + (match home {
        Option::Some(_) => seq![
            ConfigurationTypeView::Import(
                ImportView { inherit: Option::None, path: "cell.homeConfigurations."@ + name },
            ),
        ],
        Option::None => Seq::<ConfigurationTypeView>::empty(),
    }) + seq![
        ConfigurationTypeView::Import(
            ImportView { inherit: Option::None, path: "cell.nixosModules."@ + name },
        ),
        ConfigurationTypeView::Import(
            ImportView { inherit: Option::None, path: "cell.nixosProfiles."@ + name },
        ),
        ConfigurationTypeView::Import(
            ImportView {
                inherit: Option::Some(InheritView { path: "inputs"@, name: "disko"@ }),
                path: "nixosModules.disko"@,
            },
        ),
    ]
}

impl Configurations {
    /// A scope built from explicit configuration items.
    ///
    /// Fails with [`HiveError::BindingNameCollision`] exactly when two of
    /// the bindings the items require share a local name but differ in
    /// their source.
    pub fn from_items(name: &str, items: Vec<ConfigurationType>) -> (r: Result<
        Configurations,
        HiveError,
    >)
        ensures
            match r {
                Result::Ok(c) => !has_collision(required_bindings(items_view(items@)))
                    && c@ == (ConfigurationsView { name: name@, items: items_view(items@) }),
                Result::Err(e) => has_collision(required_bindings(items_view(items@))) && e
                    == HiveError::BindingNameCollision,
            },
    {
        let bs = collect_bindings(&items);
        if find_collision(&bs) {
            Result::Err(HiveError::BindingNameCollision)
        } else {
            Result::Ok(Configurations { configurations: items, name: String::from_str(name) })
        }
    }

    /// A scope built from import references alone.
    ///
    /// Fails with [`HiveError::BindingNameCollision`] exactly when two of
    /// the bindings the references require share a local name but differ
    /// in their source.
    pub fn new(name: &str, imports: Vec<Import>) -> (r: Result<Configurations, HiveError>)
        ensures
            ({
                let its = imports@.map_values(|i: Import| ConfigurationTypeView::Import(i@));
                match r {
                    Result::Ok(c) => !has_collision(required_bindings(its)) && c@
                        == (ConfigurationsView { name: name@, items: its }),
                    Result::Err(e) => has_collision(required_bindings(its)) && e
                        == HiveError::BindingNameCollision,
                }
            }),
    {
        let ghost its = imports@.map_values(|i: Import| ConfigurationTypeView::Import(i@));
        let mut items: Vec<ConfigurationType> = Vec::new();
        let mut idx: usize = 0;
        while idx < imports.len()
            invariant
                idx <= imports@.len(),
                items@.len() == idx,
                forall|n: int|
                    0 <= n < idx ==> (#[trigger] items@[n])@ == ConfigurationTypeView::Import(
                        imports@[n]@,
                    ),
            decreases imports@.len() - idx,
        {
            items.push(ConfigurationType::Import(imports[idx].clone()));
            idx = idx + 1;
        }
        proof {
            assert(items_view(items@) =~= its);
        }
        Configurations::from_items(name, items)
    }

    /// The canonical machine scope for `name`, with the fixed published
    /// item order of [`canonical_machine_items`].  Its required bindings
    /// all come from `inputs`, so no binding-name collision is possible.
    pub fn new_nixos_configurations(name: &str) -> (r: Configurations)
        ensures
            r@ == (ConfigurationsView { name: name@, items: canonical_machine_items(name@) }),
            !has_collision(required_bindings(r@.items)),
    {
        let bee_name = String::from_str("bee-").concat(name);
        let mut pkgs_path = String::from_str("cell.pkgs.");
        pkgs_path.append(name);
        let bee = Variable::bee(
            bee_name.as_str(),
            Option::Some(Import::from_inherit(Inherit::home_manager())),
            Import { inherit: Option::None, path: pkgs_path },
            "x86_64-linux",
        );
        let mut items: Vec<ConfigurationType> = Vec::new();
        items.push(ConfigurationType::Local(bee));
        items.push(ConfigurationType::Import(Import::new1(bee_name.as_str())));
        items.push(ConfigurationType::Import(Import::cell_disko_configurations(name)));
        items.push(ConfigurationType::Import(Import::cell_hardware_profiles(name)));
        items.push(ConfigurationType::Import(Import::cell_home_configurations(name)));
        items.push(ConfigurationType::Import(Import::cell_nixos_modules(name)));
        items.push(ConfigurationType::Import(Import::cell_nixos_profiles(name)));
        items.push(ConfigurationType::Import(Import::disko_module()));
        proof {
            assert(items_view(items@) =~= canonical_machine_items(name@));
        }
        let r = Configurations { configurations: items, name: String::from_str(name) };
        proof {
            lemma_canonical_machine_no_collision(name@);
        }
        r
    }

    /// The parameterized canonical machine scope for `name`, with the
    /// fixed published item order of [`canonical_machine_items1`].  Its
    /// required bindings all come from `inputs`, so no binding-name
    /// collision is possible.
    pub fn new_nixos_configurations1(
        name: &str,
        home_manager: Option<&str>,
        nixpkgs: &str,
        system: &str,
    ) -> (r: Configurations)
        ensures
            r@ == (ConfigurationsView {
                name: name@,
                items: canonical_machine_items1(
                    name@,
                    match home_manager {
                        Option::Some(h) => Option::Some(h@),
                        Option::None => Option::None,
                    },
                    nixpkgs@,
                    system@,
                ),
            }),
            !has_collision(required_bindings(r@.items)),
    {
        let ghost home_spec: Option<Seq<char>> = match home_manager {
            Option::Some(h) => Option::Some(h@),
            Option::None => Option::None,
        };
        let bee_name = String::from_str("bee-").concat(name);
        let home = match home_manager {
            Option::Some(h) => Option::Some(Import::from_inherit(Inherit::new("inputs", h))),
            Option::None => Option::None,
        };
        let bee = Variable::bee(
            bee_name.as_str(),
            home,
            Import::new("inputs", nixpkgs, "legacyPackages"),
            system,
        );
        let mut items: Vec<ConfigurationType> = Vec::new();
        items.push(ConfigurationType::Local(bee));
        items.push(ConfigurationType::Import(Import::new1(bee_name.as_str())));
        items.push(ConfigurationType::Import(Import::cell_disko_configurations(name)));
        items.push(ConfigurationType::Import(Import::cell_hardware_profiles(name)));
        if home_manager.is_some() {
            items.push(ConfigurationType::Import(Import::cell_home_configurations(name)));
        }
        items.push(ConfigurationType::Import(Import::cell_nixos_modules(name)));
        items.push(ConfigurationType::Import(Import::cell_nixos_profiles(name)));
        items.push(ConfigurationType::Import(Import::disko_module()));
        proof {
            assert(items_view(items@) =~= canonical_machine_items1(
                name@,
                home_spec,
                nixpkgs@,
                system@,
            ));
        }
        let r = Configurations { configurations: items, name: String::from_str(name) };
        proof {
            lemma_canonical_machine1_no_collision(name@, home_spec, nixpkgs@, system@);
        }
        r
    }
}

/// The character of one decimal digit.
pub open spec fn digit_char(d: nat) -> char {
    if d == 0 {
        '0'
    } else if d == 1 {
        '1'
    } else if d == 2 {
        '2'
    } else if d == 3 {
        '3'
    } else if d == 4 {
        '4'
    } else if d == 5 {
        '5'
    } else if d == 6 {
        '6'
    } else if d == 7 {
        '7'
    } else if d == 8 {
        '8'
    } else {
        '9'
    }
}

/// The decimal digits of `n`, most significant first.
pub open spec fn dec_digits(n: nat) -> Seq<char>
    decreases n,
{
    if n < 10 {
        seq![digit_char(n)]
    } else {
        dec_digits(n / 10).push(digit_char(n % 10))
    }
}

/// The index part of a generated machine name: the decimal digits of
/// `n`, zero-padded on the left to at least two digits.
pub open spec fn index_name(n: nat) -> Seq<char> {
    if n < 10 {
        seq!['0'] + dec_digits(n)
    } else {
        dec_digits(n)
    }
}

/// The `&str` of one decimal digit.
fn digit_str(d: u32) -> (r: &'static str)
    requires
        d < 10,
    ensures
        r@ == seq![digit_char(d as nat)],
{
    proof {
        reveal_strlit("0");
        reveal_strlit("1");
        reveal_strlit("2");
        reveal_strlit("3");
        reveal_strlit("4");
        reveal_strlit("5");
        reveal_strlit("6");
        reveal_strlit("7");
        reveal_strlit("8");
        reveal_strlit("9");
    }
    if d == 0 {
        "0"
    } else if d == 1 {
        "1"
    } else if d == 2 {
        "2"
    } else if d == 3 {
        "3"
    } else if d == 4 {
        "4"
    } else if d == 5 {
        "5"
    } else if d == 6 {
        "6"
    } else if d == 7 {
        "7"
    } else if d == 8 {
        "8"
    } else {
        "9"
    }
}

/// The decimal digits of `n` as a string.
fn dec_string(n: u32) -> (r: String)
    ensures
        r@ == dec_digits(n as nat),
    decreases n,
{
    if n < 10 {
        String::from_str(digit_str(n))
    } else {
        let mut s = dec_string(n / 10);
        s.append(digit_str(n % 10));
        proof {
            assert(s@ =~= dec_digits(n as nat));
        }
        s
    }
}

/// The zero-padded index part of a generated machine name.
fn index_string(n: u32) -> (r: String)
    ensures
        r@ == index_name(n as nat),
{
    if n < 10 {
        let mut s = String::from_str("0");
        let d = dec_string(n);
        s.append(d.as_str());
        proof {
            reveal_strlit("0");
            assert(s@ =~= index_name(n as nat));
        }
        s
    } else {
        dec_string(n)
    }
}

/// The top-level aggregate: an ordered collection of named scopes,
/// rendered as one attribute set mapping each scope's name to its body.
pub struct NixosConfigurations(pub Vec<Configurations>);

impl View for NixosConfigurations {
    type V = Seq<ConfigurationsView>;

    open spec fn view(&self) -> Seq<ConfigurationsView> {
        self.0@.map_values(|c: Configurations| c@)
    }
}

impl NixosConfigurations {
    /// A collection holding the single canonical machine scope `name`.
    pub fn new(name: &str) -> (r: Self)
        ensures
            r@ == seq![
                (ConfigurationsView { name: name@, items: canonical_machine_items(name@) }),
            ],
    {
        let mut scopes: Vec<Configurations> = Vec::new();
        scopes.push(Configurations::new_nixos_configurations(name));
        let r = NixosConfigurations(scopes);
        proof {
            assert(r@ =~= seq![
                (ConfigurationsView { name: name@, items: canonical_machine_items(name@) }),
            ]);
        }
        r
    }

    /// A collection of `number` parameterized canonical machine scopes,
    /// named by `prefix` followed by the zero-padded two-digit index:
    /// `<prefix>00`, `<prefix>01`, and so on.
    pub fn new1(
        prefix: &str,
        number: u32,
        home_manager: Option<&str>,
        nixpkgs: &str,
        system: &str,
    ) -> (r: Self)
        ensures
            r@.len() == number as nat,
            forall|k: int|
                0 <= k < number as nat ==> #[trigger] r@[k] == (ConfigurationsView {
                    name: prefix@ + index_name(k as nat),
                    items: canonical_machine_items1(
                        prefix@ + index_name(k as nat),
                        match home_manager {
                            Option::Some(h) => Option::Some(h@),
                            Option::None => Option::None,
                        },
                        nixpkgs@,
                        system@,
                    ),
                }),
    {
        let ghost home_spec: Option<Seq<char>> = match home_manager {
            Option::Some(h) => Option::Some(h@),
            Option::None => Option::None,
        };
        let mut scopes: Vec<Configurations> = Vec::new();
        let mut i: u32 = 0;
        while i < number
            invariant
                i <= number,
                home_spec == (match home_manager {
                    Option::Some(h) => Option::Some(h@),
                    Option::None => Option::<Seq<char>>::None,
                }),
                scopes@.len() == i as nat,
                forall|k: int|
                    0 <= k < i as nat ==> (#[trigger] scopes@[k])@ == (ConfigurationsView {
                        name: prefix@ + index_name(k as nat),
                        items: canonical_machine_items1(
                            prefix@ + index_name(k as nat),
                            home_spec,
                            nixpkgs@,
                            system@,
                        ),
                    }),
            decreases number - i,
        {
            let index = index_string(i);
            let name = String::from_str(prefix).concat(index.as_str());
            let c = Configurations::new_nixos_configurations1(
                name.as_str(),
                home_manager,
                nixpkgs,
                system,
            );
            proof {
                assert(name@ == prefix@ + index_name(i as nat));
                assert(c@.name == prefix@ + index_name(i as nat));
                assert(c@.items == canonical_machine_items1(
                    prefix@ + index_name(i as nat),
                    home_spec,
                    nixpkgs@,
                    system@,
                ));
            }
            scopes.push(c);
            i = i + 1;
        }
        NixosConfigurations(scopes)
    }
}

/// The canonical machine template requires bindings from `inputs` only,
/// so it never holds a binding-name collision.
pub proof fn lemma_canonical_machine_no_collision(name: Seq<char>)
    ensures
        !has_collision(required_bindings(canonical_machine_items(name))),
{
    let items = canonical_machine_items(name);
    assert(forall|k: int| 0 <= k < items.len() ==> item_bindings_from(#[trigger] items[k], "inputs"@))
        by {
        assert(item_bindings(items[0]).len() == 1 && item_bindings(items[0])[0].path == "inputs"@);
        assert(item_bindings(items[1]).len() == 0);
        assert(item_bindings(items[2]).len() == 0);
        assert(item_bindings(items[3]).len() == 0);
        assert(item_bindings(items[4]).len() == 0);
        assert(item_bindings(items[5]).len() == 0);
        assert(item_bindings(items[6]).len() == 0);
        assert(item_bindings(items[7]).len() == 1 && item_bindings(items[7])[0].path == "inputs"@);
    }
    lemma_required_bindings_uniform_path(items, "inputs"@);
    lemma_uniform_path_no_collision(required_bindings(items), "inputs"@);
}

/// The parameterized canonical machine template requires bindings from
/// `inputs` only, so it never holds a binding-name collision.
pub proof fn lemma_canonical_machine1_no_collision(
    name: Seq<char>,
    home: Option<Seq<char>>,
    nixpkgs: Seq<char>,
    system: Seq<char>,
)
    ensures
        !has_collision(required_bindings(canonical_machine_items1(name, home, nixpkgs, system))),
{
    let items = canonical_machine_items1(name, home, nixpkgs, system);
    assert(forall|k: int| 0 <= k < items.len() ==> item_bindings_from(#[trigger] items[k], "inputs"@))
        by {
        assert(forall|k: int|
            0 <= k < items.len() ==> ((#[trigger] items[k]) matches ConfigurationTypeView::Import(
                i,
            ) ==> (match i.inherit {
                Option::Some(b) => b.path == "inputs"@,
                Option::None => true,
            })));
        assert(item_bindings_from(items[0], "inputs"@));
    }
    lemma_required_bindings_uniform_path(items, "inputs"@);
    lemma_uniform_path_no_collision(required_bindings(items), "inputs"@);
}

/// The preamble lines of a sequence of bindings, in the same order.
pub open spec fn binding_lines(bs: Seq<InheritView>) -> Seq<Seq<char>> {
    bs.map_values(|b: InheritView| inherit_line(b))
}

/// The bindings a scope declares in its preamble: the bindings its
/// items require, deduplicated in first-occurrence order.
pub open spec fn scope_bindings(v: ConfigurationsView) -> Seq<InheritView> {
    dedup_bindings(required_bindings(v.items))
}

/// The sink items of a nonempty scope preamble: `let`, one line per
/// distinct binding one level deeper, `in`, and a blank separator line.
pub open spec fn preamble_items(bs: Seq<InheritView>) -> Seq<DocItem> {
    seq![DocItem::Text("let"@), DocItem::Indent(1)] + entries_items(binding_lines(bs)).drop_last()
        + seq![DocItem::Indent(-1), DocItem::Text("in"@), DocItem::Line]
}

/// The sink items of a scope's locals, in order.
pub open spec fn locals_items(ls: Seq<VariableView>) -> Seq<DocItem>
    decreases ls.len(),
{
    if ls.len() == 0 {
        Seq::empty()
    } else {
        locals_items(ls.drop_last()) + variable_items(ls.last())
    }
}

/// The sink items of a scope body: an attribute set holding each
/// local's assignment and then the `imports` assignment, one level
/// deeper.
pub open spec fn body_items(v: ConfigurationsView) -> Seq<DocItem> {
    seq![DocItem::Text("{"@), DocItem::Indent(1)] + locals_items(scope_locals(v.items)) + seq![
        DocItem::Text("imports = "@),
    ] + imports_items(scope_refs(v.items)) + seq![
        DocItem::Text(";"@),
        DocItem::Indent(-1),
        DocItem::Text("}"@),
    ]
}

/// The sink items of a rendered scope: the preamble — only when the
/// scope requires bindings — followed by the body.
pub open spec fn scope_items(v: ConfigurationsView) -> Seq<DocItem> {
    (if scope_bindings(v).len() == 0 {
        Seq::<DocItem>::empty()
    } else {
        preamble_items(scope_bindings(v))
    }) + body_items(v)
}

/// The output lines of a scope rendered alone.
pub open spec fn scope_lines(v: ConfigurationsView) -> Seq<Seq<char>> {
    doc_lines(scope_items(v))
}

/// The sink items of one scope entry of a collection: the scope's name,
/// ` = `, the scope itself, and `;` on the closing line.
pub open spec fn scope_entry_items(s: ConfigurationsView) -> Seq<DocItem> {
    seq![DocItem::Text(s.name + " = "@)] + scope_items(s) + seq![
        DocItem::Text(";"@),
        DocItem::Push,
    ]
}

/// The sink items of a run of scope entries, in order.
pub open spec fn scopes_items(ss: Seq<ConfigurationsView>) -> Seq<DocItem>
    decreases ss.len(),
{
    if ss.len() == 0 {
        Seq::empty()
    } else {
        scopes_items(ss.drop_last()) + scope_entry_items(ss.last())
    }
}

/// The sink items of a rendered collection: one attribute set mapping
/// each scope's name to its body, one scope per entry, in order.
pub open spec fn collection_items(ss: Seq<ConfigurationsView>) -> Seq<DocItem> {
    if ss.len() == 0 {
        seq![DocItem::Text("{"@), DocItem::Text("}"@)]
    } else {
        seq![DocItem::Text("{"@), DocItem::Indent(1)] + scopes_items(ss).drop_last() + seq![
            DocItem::Indent(-1),
            DocItem::Text("}"@),
        ]
    }
}

/// The output lines of a rendered collection.
pub open spec fn collection_lines(ss: Seq<ConfigurationsView>) -> Seq<Seq<char>> {
    doc_lines(collection_items(ss))
}

/// The output lines of a scope's locals at indentation level `k`.
pub open spec fn locals_lines(ls: Seq<VariableView>, k: int) -> Seq<Seq<char>>
    decreases ls.len(),
{
    if ls.len() == 0 {
        Seq::empty()
    } else {
        locals_lines(ls.drop_last(), k) + variable_lines(ls.last(), k)
    }
}

/// A run of locals emits exactly their blocks, in order, and leaves a
/// pending break behind.
proof fn lemma_locals_state(st: DocState, ls: Seq<VariableView>)
    requires
        st.ws == Ws::Brk,
    ensures
        doc_run(st, locals_items(ls)).ws == Ws::Brk,
        doc_run(st, locals_items(ls)).ind == st.ind,
        flushed(doc_run(st, locals_items(ls))) == flushed(st) + locals_lines(ls, st.ind),
    decreases ls.len(),
{
    if ls.len() == 0 {
        assert(locals_items(ls) == Seq::<DocItem>::empty());
        assert(flushed(doc_run(st, locals_items(ls))) =~= flushed(st) + locals_lines(
            ls,
            st.ind,
        ));
    } else {
        assert(locals_items(ls) == locals_items(ls.drop_last()) + variable_items(ls.last()));
        lemma_doc_run_concat(st, locals_items(ls.drop_last()), variable_items(ls.last()));
        lemma_locals_state(st, ls.drop_last());
        let mid = doc_run(st, locals_items(ls.drop_last()));
        lemma_variable_state(mid, ls.last());
        assert(flushed(doc_run(st, locals_items(ls))) =~= flushed(st) + locals_lines(
            ls,
            st.ind,
        ));
    }
}

/// The output lines of a scope body after its opening-brace line, at
/// indentation level `k`: each local's block, the `imports` assignment
/// holding the reference list, and the closing brace.
pub open spec fn body_tail_lines(v: ConfigurationsView, k: int) -> Seq<Seq<char>> {
    locals_lines(scope_locals(v.items), k + 1) + (if scope_refs(v.items).len() == 0 {
        seq![ind_spaces(k + 1) + "imports = "@ + "["@ + "]"@ + ";"@]
    } else {
        seq![ind_spaces(k + 1) + "imports = "@ + "["@] + entry_lines(
            ref_texts(scope_refs(v.items)),
            k + 2,
        ) + seq![ind_spaces(k + 1) + "]"@ + ";"@]
    }) + seq![ind_spaces(k) + "}"@]
}

/// A scope body opens with its brace — settling any pending whitespace
/// first — and then emits exactly [`body_tail_lines`].
proof fn lemma_body_state(st: DocState, v: ConfigurationsView)
    requires
        forall|i: int|
            0 <= i < scope_refs(v.items).len() ==> ref_text(
                #[trigger] scope_refs(v.items)[i],
            ).len() > 0,
    ensures
        doc_run(st, body_items(v)).ws == Ws::Flow,
        doc_run(st, body_items(v)).ind == st.ind,
        flushed(doc_run(st, body_items(v))) == text_flush(flushed(st), st.ws, st.ind, "{"@)
            + body_tail_lines(v, st.ind),
{
    reveal_strlit("{");
    reveal_strlit("}");
    reveal_strlit("imports = ");
    reveal_strlit(";");
    let k = st.ind;
    let ls = scope_locals(v.items);
    let refs = scope_refs(v.items);
    let b1 = seq![DocItem::Text("{"@), DocItem::Indent(1)];
    let lo = locals_items(ls);
    let b2 = seq![DocItem::Text("imports = "@)];
    let im = imports_items(refs);
    let b3 = seq![DocItem::Text(";"@), DocItem::Indent(-1), DocItem::Text("}"@)];
    assert(body_items(v) == b1 + lo + b2 + im + b3);
    lemma_doc_run_concat(st, b1 + lo + b2 + im, b3);
    lemma_doc_run_concat(st, b1 + lo + b2, im);
    lemma_doc_run_concat(st, b1 + lo, b2);
    lemma_doc_run_concat(st, b1, lo);
    lemma_doc_run_two(st, DocItem::Text("{"@), DocItem::Indent(1));
    lemma_text_flush(st, "{"@);
    let st1 = doc_run(st, b1);
    assert(st1.ws == Ws::Brk && st1.ind == k + 1);
    assert(flushed(st1) == text_flush(flushed(st), st.ws, st.ind, "{"@));
    lemma_locals_state(st1, ls);
    let st2 = doc_run(st1, lo);
    assert(st2.ws == Ws::Brk && st2.ind == k + 1);
    lemma_doc_run_one(st2, DocItem::Text("imports = "@));
    let st3 = doc_run(st2, b2);
    assert(st3.ws == Ws::Flow && st3.ind == k + 1);
    assert(flushed(st3) =~= flushed(st2).push(ind_spaces(k + 1) + "imports = "@));
    lemma_imports_state(st3, refs);
    let st4 = doc_run(st3, im);
    assert(st4.ws == Ws::Flow && st4.ind == k + 1);
    lemma_doc_run_three(st4, DocItem::Text(";"@), DocItem::Indent(-1), DocItem::Text("}"@));
    let st5 = doc_run(st4, b3);
    assert(st5.ws == Ws::Flow && st5.ind == k);
    assert(flushed(st5) =~= flushed(st4).update(
        flushed(st4).len() - 1,
        flushed(st4).last() + ";"@,
    ).push(ind_spaces(k) + "}"@));
    assert(st5 == doc_run(st, body_items(v)));
    if refs.len() == 0 {
        assert(flushed(st4) =~= flushed(st3).update(
            flushed(st3).len() - 1,
            flushed(st3).last() + "["@ + "]"@,
        ));
        assert(flushed(st4).last() == ind_spaces(k + 1) + "imports = "@ + "["@ + "]"@);
        assert(flushed(st5) =~= text_flush(flushed(st), st.ws, st.ind, "{"@) + body_tail_lines(
            v,
            k,
        ));
    } else {
        assert(flushed(st4) =~= flushed(st3).update(
            flushed(st3).len() - 1,
            flushed(st3).last() + "["@,
        ) + entry_lines(ref_texts(refs), k + 2) + seq![ind_spaces(k + 1) + "]"@]);
        assert(flushed(st4).last() == ind_spaces(k + 1) + "]"@);
        assert(flushed(st5) =~= text_flush(flushed(st), st.ws, st.ind, "{"@) + body_tail_lines(
            v,
            k,
        ));
    }
}

/// Whether every reference of a scope renders to nonempty text — the
/// data-model invariant that a reference path is never empty.
pub open spec fn scope_ref_texts_nonempty(v: ConfigurationsView) -> bool {
    forall|i: int|
        0 <= i < scope_refs(v.items).len() ==> ref_text(#[trigger] scope_refs(v.items)[i]).len()
            > 0
}

/// The first text of a rendered scope: `let` when a preamble is
/// emitted, the body's opening brace otherwise.
pub open spec fn scope_first_text(v: ConfigurationsView) -> Seq<char> {
    if scope_bindings(v).len() == 0 {
        "{"@
    } else {
        "let"@
    }
}

/// The output lines of a rendered scope after its first line, at
/// indentation level `k`: the rest of the preamble — the inherit
/// lines, `in`, the blank separator and the body's opening brace —
/// when bindings are required, then the body's tail.
pub open spec fn scope_tail_lines(v: ConfigurationsView, k: int) -> Seq<Seq<char>> {
    (if scope_bindings(v).len() == 0 {
        Seq::<Seq<char>>::empty()
    } else {
        entry_lines(binding_lines(scope_bindings(v)), k + 1) + seq![
            ind_spaces(k) + "in"@,
            Seq::<char>::empty(),
            ind_spaces(k) + "{"@,
        ]
    }) + body_tail_lines(v, k)
}

/// A rendered scope opens with `let` or its body's brace — settling
/// any pending whitespace first — and then emits exactly its tail
/// lines; the closing brace still flows.
proof fn lemma_scope_state(st: DocState, v: ConfigurationsView)
    requires
        scope_ref_texts_nonempty(v),
    ensures
        doc_run(st, scope_items(v)).ws == Ws::Flow,
        doc_run(st, scope_items(v)).ind == st.ind,
        flushed(doc_run(st, scope_items(v))) == text_flush(
            flushed(st),
            st.ws,
            st.ind,
            scope_first_text(v),
        ) + scope_tail_lines(v, st.ind),
{
    let sb = scope_bindings(v);
    let k = st.ind;
    if sb.len() == 0 {
        assert(scope_items(v) =~= body_items(v));
        lemma_body_state(st, v);
        assert(flushed(doc_run(st, scope_items(v))) =~= text_flush(
            flushed(st),
            st.ws,
            st.ind,
            scope_first_text(v),
        ) + scope_tail_lines(v, st.ind));
    } else {
        assert(scope_items(v) == preamble_items(sb) + body_items(v));
        lemma_doc_run_concat(st, preamble_items(sb), body_items(v));
        lemma_preamble_state(st, sb);
        let stp = doc_run(st, preamble_items(sb));
        assert(stp.ws == Ws::Blank && stp.ind == k);
        lemma_body_state(stp, v);
        assert(text_flush(flushed(stp), Ws::Blank, k, "{"@) =~= flushed(stp).push(
            Seq::<char>::empty(),
        ).push(ind_spaces(k) + "{"@));
        assert(flushed(doc_run(st, scope_items(v))) =~= text_flush(
            flushed(st),
            st.ws,
            st.ind,
            scope_first_text(v),
        ) + scope_tail_lines(v, st.ind));
    }
}

/// Exact scope output: a scope rendered alone emits its first line —
/// `let` when bindings are required, the body's brace otherwise — and
/// then exactly its tail lines: the remaining preamble with its blank
/// separator, each local's block, the `imports` assignment and the
/// closing brace.
pub proof fn lemma_scope_lines(v: ConfigurationsView)
    requires
        scope_ref_texts_nonempty(v),
    ensures
        scope_lines(v) == seq![scope_first_text(v)] + scope_tail_lines(v, 0),
{
    lemma_scope_state(init_state(), v);
    let f = doc_run(init_state(), scope_items(v));
    assert(scope_lines(v) == flushed(f));
    assert(text_flush(flushed(init_state()), Ws::Start, 0, scope_first_text(v)) =~= seq![
        scope_first_text(v),
    ]) by {
        assert(Seq::<char>::empty() + ind_spaces(0) + scope_first_text(v) =~= scope_first_text(
            v,
        ));
    }
}

/// A scope's locals hold no blank-line item.
proof fn lemma_locals_items_no_blank(ls: Seq<VariableView>)
    ensures
        no_blank_items(locals_items(ls)),
    decreases ls.len(),
{
    if ls.len() > 0 {
        lemma_locals_items_no_blank(ls.drop_last());
        lemma_variable_items_no_blank(ls.last());
        lemma_no_blank_concat(locals_items(ls.drop_last()), variable_items(ls.last()));
    }
}

/// A scope body holds only text, breaks and indentation changes, never
/// a blank line.
proof fn lemma_body_items_no_blank(v: ConfigurationsView)
    ensures
        no_blank_items(body_items(v)),
{
    let a = seq![DocItem::Text("{"@), DocItem::Indent(1)];
    let b = locals_items(scope_locals(v.items));
    let c = seq![DocItem::Text("imports = "@)];
    let d = imports_items(scope_refs(v.items));
    let e = seq![DocItem::Text(";"@), DocItem::Indent(-1), DocItem::Text("}"@)];
    assert(body_items(v) == a + b + c + d + e);
    assert(no_blank_items(a));
    lemma_locals_items_no_blank(scope_locals(v.items));
    assert(no_blank_items(c));
    lemma_imports_items_no_blank(scope_refs(v.items));
    assert(no_blank_items(e));
    lemma_no_blank_concat(a, b);
    lemma_no_blank_concat(a + b, c);
    lemma_no_blank_concat(a + b + c, d);
    lemma_no_blank_concat(a + b + c + d, e);
}

/// No-binding scope: a scope that requires no bindings emits its body
/// alone — no `let … in` section — and none of its items can produce a
/// blank separator line.
pub proof fn lemma_no_binding_scope(v: ConfigurationsView)
    requires
        scope_bindings(v).len() == 0,
    ensures
        scope_items(v) == body_items(v),
        no_blank_items(scope_items(v)),
{
    assert(scope_items(v) =~= body_items(v));
    lemma_body_items_no_blank(v);
}

/// Dedup idempotence at the rendering level: requiring a binding once
/// more that is already required leaves the declared bindings — and
/// with them the emitted preamble — identical, byte for byte.
pub proof fn lemma_repeated_requirement_same_preamble(bs: Seq<InheritView>, b: InheritView)
    requires
        bs.contains(b),
    ensures
        dedup_bindings(bs.push(b)) == dedup_bindings(bs),
        preamble_items(dedup_bindings(bs.push(b))) == preamble_items(dedup_bindings(bs)),
{
    lemma_duplicate_requirement_dedups_away(bs, b);
}

/// A nonempty preamble emits exactly: `let` — settling any pending
/// whitespace first — one `inherit` line per declared binding one level
/// deeper, `in` back at the outer level, and a pending blank line
/// before whatever follows.
pub proof fn lemma_preamble_state(st: DocState, bs: Seq<InheritView>)
    requires
        bs.len() > 0,
    ensures
        doc_run(st, preamble_items(bs)).ws == Ws::Blank,
        doc_run(st, preamble_items(bs)).ind == st.ind,
        flushed(doc_run(st, preamble_items(bs))) == text_flush(
            flushed(st),
            st.ws,
            st.ind,
            "let"@,
        ) + entry_lines(binding_lines(bs), st.ind + 1) + seq![ind_spaces(st.ind) + "in"@],
{
    reveal_strlit("let");
    reveal_strlit("in");
    reveal_strlit("inherit (");
    let texts = binding_lines(bs);
    assert(texts.len() == bs.len());
    assert(forall|i: int| 0 <= i < texts.len() ==> (#[trigger] texts[i]).len() > 0) by {
        assert(forall|i: int|
            0 <= i < bs.len() ==> texts[i] == inherit_line(#[trigger] bs[i]));
    }
    let a = seq![DocItem::Text("let"@), DocItem::Indent(1)];
    let b = entries_items(texts).drop_last();
    let c = seq![DocItem::Indent(-1), DocItem::Text("in"@), DocItem::Line];
    assert(preamble_items(bs) == a + b + c);
    lemma_doc_run_concat(st, a + b, c);
    lemma_doc_run_concat(st, a, b);
    lemma_doc_run_two(st, DocItem::Text("let"@), DocItem::Indent(1));
    lemma_text_flush(st, "let"@);
    let st1 = doc_run(st, a);
    assert(st1.ws == Ws::Brk && st1.ind == st.ind + 1);
    assert(flushed(st1) == text_flush(flushed(st), st.ws, st.ind, "let"@));
    lemma_doc_run_entries_open(st1, texts);
    let st2 = doc_run(st1, b);
    lemma_doc_run_three(st2, DocItem::Indent(-1), DocItem::Text("in"@), DocItem::Line);
    let st3 = doc_run(st2, c);
    assert(st3.ind == st.ind && st3.ws == Ws::Blank);
    assert(flushed(st2) =~= flushed(st1) + entry_lines(texts, st.ind + 1)) by {
        assert(entry_lines(texts, st.ind + 1) =~= entry_lines(
            texts.drop_last(),
            st.ind + 1,
        ).push(ind_spaces(st.ind + 1) + texts.last()));
    }
    assert(flushed(st3) =~= flushed(st2).push(ind_spaces(st.ind) + "in"@));
    assert(flushed(st3) =~= text_flush(flushed(st), st.ws, st.ind, "let"@) + entry_lines(
        binding_lines(bs),
        st.ind + 1,
    ) + seq![ind_spaces(st.ind) + "in"@]);
}

/// A scope that requires bindings opens with its preamble, exactly:
/// `let`, one `inherit` line per distinct binding one level deeper,
/// `in`, and a blank separator line, before anything of its body.
pub proof fn lemma_scope_preamble_lines(v: ConfigurationsView)
    requires
        scope_bindings(v).len() > 0,
    ensures
        scope_lines(v).len() > scope_bindings(v).len() + 3,
        scope_lines(v).take(scope_bindings(v).len() + 3 as int) == seq!["let"@] + entry_lines(
            binding_lines(scope_bindings(v)),
            1,
        ) + seq!["in"@, Seq::<char>::empty()],
{
    let sb = scope_bindings(v);
    let pre = preamble_items(sb);
    let body = body_items(v);
    assert(scope_items(v) == pre + body);
    let init = init_state();
    lemma_doc_run_concat(init, pre, body);
    lemma_preamble_state(init, sb);
    let stp = doc_run(init, pre);
    assert(flushed(stp) =~= seq!["let"@] + entry_lines(binding_lines(sb), 1) + seq![
        "in"@,
    ]) by {
        assert(text_flush(flushed(init), Ws::Start, 0, "let"@) =~= seq!["let"@]) by {
            assert(Seq::<char>::empty() + ind_spaces(0) + "let"@ =~= "let"@);
        }
        assert(ind_spaces(0) + "in"@ =~= "in"@);
    }
    let b1 = seq![DocItem::Text("{"@), DocItem::Indent(1)];
    let rest = locals_items(scope_locals(v.items)) + seq![DocItem::Text("imports = "@)]
        + imports_items(scope_refs(v.items)) + seq![
        DocItem::Text(";"@),
        DocItem::Indent(-1),
        DocItem::Text("}"@),
    ];
    assert(body == b1 + rest);
    lemma_doc_run_concat(stp, b1, rest);
    lemma_doc_run_two(stp, DocItem::Text("{"@), DocItem::Indent(1));
    reveal_strlit("{");
    let stb = doc_run(stp, b1);
    assert(stb.done =~= flushed(stp).push(Seq::<char>::empty()));
    lemma_doc_run_keeps_done(stb, rest);
    let f = doc_run(stb, rest);
    assert(f == doc_run(init, scope_items(v)));
    let k = sb.len() + 3 as int;
    assert(stb.done.len() == k);
    assert(scope_lines(v) == f.done.push(f.cur));
    assert(f.done.push(f.cur).len() > k);
    assert(f.done.push(f.cur).take(k) =~= f.done.take(k)) by {
        assert(forall|n: int| 0 <= n < f.done.len() ==> f.done.push(f.cur)[n] == f.done[n]);
    }
    assert(f.done.take(k) == stb.done);
    assert(stb.done =~= seq!["let"@] + entry_lines(binding_lines(sb), 1) + seq![
        "in"@,
        Seq::<char>::empty(),
    ]);
}

/// The output lines of one collection entry at indentation level `k`:
/// the scope's name, ` = ` and the scope's first text on one line, then
/// the scope's tail lines with `;` appended to the closing brace.
pub open spec fn scope_entry_lines_at(s: ConfigurationsView, k: int) -> Seq<Seq<char>> {
    let t = scope_tail_lines(s, k);
    seq![ind_spaces(k) + (s.name + " = "@) + scope_first_text(s)] + t.update(
        t.len() - 1,
        t.last() + ";"@,
    )
}

/// The output lines of a run of collection entries, in order.
pub open spec fn scopes_entries_lines(ss: Seq<ConfigurationsView>, k: int) -> Seq<Seq<char>>
    decreases ss.len(),
{
    if ss.len() == 0 {
        Seq::empty()
    } else {
        scopes_entries_lines(ss.drop_last(), k) + scope_entry_lines_at(ss.last(), k)
    }
}

/// A run of collection entries emits exactly its entries' lines and
/// leaves a pending break behind.
proof fn lemma_scopes_state(st: DocState, ss: Seq<ConfigurationsView>)
    requires
        st.ws == Ws::Brk,
        forall|j: int| 0 <= j < ss.len() ==> scope_ref_texts_nonempty(#[trigger] ss[j]),
    ensures
        doc_run(st, scopes_items(ss)).ws == Ws::Brk,
        doc_run(st, scopes_items(ss)).ind == st.ind,
        flushed(doc_run(st, scopes_items(ss))) == flushed(st) + scopes_entries_lines(
            ss,
            st.ind,
        ),
    decreases ss.len(),
{
    reveal_strlit(" = ");
    reveal_strlit(";");
    let k = st.ind;
    if ss.len() == 0 {
        assert(scopes_items(ss) == Seq::<DocItem>::empty());
        assert(flushed(doc_run(st, scopes_items(ss))) =~= flushed(st) + scopes_entries_lines(
            ss,
            k,
        ));
    } else {
        let prev = ss.drop_last();
        let s = ss.last();
        assert(forall|j: int|
            0 <= j < prev.len() ==> scope_ref_texts_nonempty(#[trigger] prev[j])) by {
            assert(forall|j: int| 0 <= j < prev.len() ==> prev[j] == ss[j]);
        }
        assert(s == ss[ss.len() - 1]);
        assert(scopes_items(ss) == scopes_items(prev) + scope_entry_items(s));
        lemma_doc_run_concat(st, scopes_items(prev), scope_entry_items(s));
        lemma_scopes_state(st, prev);
        let mid = doc_run(st, scopes_items(prev));
        let e1 = seq![DocItem::Text(s.name + " = "@)];
        let e2 = scope_items(s);
        let e3 = seq![DocItem::Text(";"@), DocItem::Push];
        assert(scope_entry_items(s) == e1 + e2 + e3);
        lemma_doc_run_concat(mid, e1 + e2, e3);
        lemma_doc_run_concat(mid, e1, e2);
        lemma_doc_run_one(mid, DocItem::Text(s.name + " = "@));
        let m1 = doc_run(mid, e1);
        assert(m1.ws == Ws::Flow && m1.ind == k);
        assert(flushed(m1) =~= flushed(mid).push(ind_spaces(k) + (s.name + " = "@)));
        lemma_scope_state(m1, s);
        let m2 = doc_run(m1, e2);
        assert(m2.ws == Ws::Flow && m2.ind == k);
        lemma_doc_run_two(m2, DocItem::Text(";"@), DocItem::Push);
        let m3 = doc_run(m2, e3);
        assert(m3.ws == Ws::Brk && m3.ind == k);
        assert(flushed(m3) =~= flushed(m2).update(
            flushed(m2).len() - 1,
            flushed(m2).last() + ";"@,
        ));
        assert(flushed(m2) =~= flushed(m1).update(
            flushed(m1).len() - 1,
            flushed(m1).last() + scope_first_text(s),
        ) + scope_tail_lines(s, k));
        let t = scope_tail_lines(s, k);
        assert(t.len() > 0);
        assert(flushed(m2).last() == t.last());
        assert(flushed(m3) =~= flushed(mid) + scope_entry_lines_at(s, k)) by {
            assert(flushed(m1).update(
                flushed(m1).len() - 1,
                flushed(m1).last() + scope_first_text(s),
            ) =~= flushed(mid).push(ind_spaces(k) + (s.name + " = "@) + scope_first_text(s)));
            assert(flushed(m3) =~= flushed(mid).push(
                ind_spaces(k) + (s.name + " = "@) + scope_first_text(s),
            ) + t.update(t.len() - 1, t.last() + ";"@));
        }
        assert(flushed(doc_run(st, scopes_items(ss))) =~= flushed(st) + scopes_entries_lines(
            ss,
            k,
        ));
    }
}

/// Exact collection output: a collection renders as one attribute set —
/// the opening brace, each scope's entry in order, the closing brace —
/// and an empty collection as the empty attribute set alone.
pub proof fn lemma_collection_lines(ss: Seq<ConfigurationsView>)
    requires
        forall|j: int| 0 <= j < ss.len() ==> scope_ref_texts_nonempty(#[trigger] ss[j]),
    ensures
        ss.len() == 0 ==> collection_lines(ss) == seq!["{"@ + "}"@],
        ss.len() > 0 ==> collection_lines(ss) == seq!["{"@] + scopes_entries_lines(ss, 1)
            + seq!["}"@],
{
    reveal_strlit("{");
    reveal_strlit("}");
    reveal_strlit(";");
    let init = init_state();
    if ss.len() == 0 {
        lemma_doc_run_two(init, DocItem::Text("{"@), DocItem::Text("}"@));
        let f = doc_run(init, collection_items(ss));
        assert(flushed(f) =~= seq!["{"@ + "}"@]);
        assert(collection_lines(ss) == flushed(f));
    } else {
        let a = seq![DocItem::Text("{"@), DocItem::Indent(1)];
        let x = scopes_items(ss);
        let b = x.drop_last();
        let c = seq![DocItem::Indent(-1), DocItem::Text("}"@)];
        assert(collection_items(ss) == a + b + c);
        lemma_doc_run_concat(init, a + b, c);
        lemma_doc_run_concat(init, a, b);
        lemma_doc_run_two(init, DocItem::Text("{"@), DocItem::Indent(1));
        let st1 = doc_run(init, a);
        assert(st1.ws == Ws::Brk && st1.ind == 1);
        assert(flushed(st1) =~= seq!["{"@]) by {
            assert(Seq::<char>::empty() + ind_spaces(0) + "{"@ =~= "{"@);
        }
        lemma_scopes_state(st1, ss);
        lemma_scopes_items_shape(ss);
        let fx = doc_run(st1, x);
        let fb = doc_run(st1, b);
        assert(x =~= b.push(DocItem::Push));
        assert(x.drop_last() == b && x.last() == DocItem::Push);
        assert(fx == doc_step(fb, DocItem::Push));
        assert(fb.done == fx.done && fb.cur == fx.cur && fb.ind == fx.ind);
        assert(flushed(fb) == flushed(st1) + scopes_entries_lines(ss, 1));
        assert(fb.ws == Ws::Flow) by {
            assert(b.len() > 0 && b.last() == DocItem::Text(";"@));
            assert(fb == doc_step(doc_run(st1, b.drop_last()), DocItem::Text(";"@)));
            assert(";"@.len() > 0);
        }
        lemma_doc_run_two(fb, DocItem::Indent(-1), DocItem::Text("}"@));
        let f = doc_run(fb, c);
        assert(f == doc_run(init, collection_items(ss)));
        assert(flushed(f) =~= flushed(fb).push(ind_spaces(0) + "}"@));
        assert(ind_spaces(0) + "}"@ =~= "}"@);
        assert(collection_lines(ss) == flushed(f));
        assert(flushed(f) =~= seq!["{"@] + scopes_entries_lines(ss, 1) + seq!["}"@]);
    }
}

/// The preamble lines of the deduplicated bindings, as strings.
fn binding_line_texts(bs: &Vec<Inherit>) -> (r: Vec<String>)
    ensures
        r@.map_values(|s: String| s@) == binding_lines(binds_view(bs@)),
{
    let mut r: Vec<String> = Vec::new();
    let mut idx: usize = 0;
    while idx < bs.len()
        invariant
            idx <= bs@.len(),
            r@.len() == idx,
            forall|n: int| 0 <= n < idx ==> (#[trigger] r@[n])@ == inherit_line(bs@[n]@),
        decreases bs@.len() - idx,
    {
        r.push(bs[idx].render_line());
        idx = idx + 1;
    }
    proof {
        assert(r@.map_values(|s: String| s@) =~= binding_lines(binds_view(bs@)));
    }
    r
}

impl Configurations {
    /// The scope's reference list: its import items, in order.
    pub fn imports(&self) -> (r: Imports)
        ensures
            r@ == scope_refs(self@.items),
    {
        let mut v: Vec<Import> = Vec::new();
        let mut idx: usize = 0;
        while idx < self.configurations.len()
            invariant
                idx <= self.configurations@.len(),
                v@.map_values(|i: Import| i@) == scope_refs(
                    items_view(self.configurations@).take(idx as int),
                ),
            decreases self.configurations@.len() - idx,
        {
            let ghost all = items_view(self.configurations@);
            let ghost next = all.take(idx as int + 1);
            proof {
                assert(next.drop_last() =~= all.take(idx as int));
                assert(next.last() == all[idx as int]);
            }
            match &self.configurations[idx] {
                ConfigurationType::Import(i) => {
                    v.push(i.clone());
                    proof {
                        assert(v@.map_values(|i: Import| i@) =~= scope_refs(next));
                    }
                },
                ConfigurationType::Local(_) => {
                    proof {
                        assert(v@.map_values(|i: Import| i@) =~= scope_refs(next));
                    }
                },
            }
            idx = idx + 1;
        }
        proof {
            let all = items_view(self.configurations@);
            assert(all.take(all.len() as int) =~= all);
        }
        Imports(v)
    }

    /// Emit the scope onto the sink: its deduplicated preamble when any
    /// bindings are required, then its body.
    pub fn format_into(&self, t: &mut Sink)
        ensures
            sink_items(*final(t)) == sink_items(*old(t)) + scope_items(self@),
    {
        let ghost base = sink_items(*t);
        let required = collect_bindings(&self.configurations);
        let declared = dedup(&required);
        proof {
            assert(binds_view(declared@) == scope_bindings(self@));
        }
        if declared.len() > 0 {
            sink_text(t, "let");
            proof {
                lemma_norm_indent_after_text(sink_items(*t), 1);
            }
            sink_indent(t);
            let ghost prefix = base + seq![DocItem::Text("let"@), DocItem::Indent(1)];
            proof {
                assert(sink_items(*t) =~= prefix);
            }
            let texts = binding_line_texts(&declared);
            emit_entries(t, &texts);
            let ghost entries = entries_items(binding_lines(scope_bindings(self@)));
            proof {
                assert(binding_lines(scope_bindings(self@)).len() > 0);
                lemma_entries_items_shape(binding_lines(scope_bindings(self@)));
                let s = sink_items(*t);
                assert(s == prefix + entries);
                assert(s.last() == entries.last());
                Seq::<DocItem>::drop_last_distributes_over_add(prefix, entries);
                assert(s.drop_last() == prefix + entries.drop_last());
                assert(s.drop_last().last() == entries.drop_last().last());
                lemma_norm_indent_pops_push(s, -1);
            }
            sink_unindent(t);
            sink_text(t, "in");
            proof {
                lemma_norm_line_after_text(sink_items(*t));
            }
            sink_line(t);
            proof {
                assert(sink_items(*t) =~= base + preamble_items(scope_bindings(self@)));
            }
        }
        let ghost mid = sink_items(*t);
        self.format_body_into(t);
        proof {
            if scope_bindings(self@).len() == 0 {
                assert(mid == base);
            }
            assert(sink_items(*t) =~= base + scope_items(self@));
        }
    }

    /// Emit the scope body onto the sink.
    fn format_body_into(&self, t: &mut Sink)
        ensures
            sink_items(*final(t)) == sink_items(*old(t)) + body_items(self@),
    {
        let ghost mid = sink_items(*t);
        sink_text(t, "{");
        proof {
            lemma_norm_indent_after_text(sink_items(*t), 1);
        }
        sink_indent(t);
        let ghost body_base = mid + seq![DocItem::Text("{"@), DocItem::Indent(1)];
        proof {
            assert(sink_items(*t) =~= body_base);
        }
        let ghost all = items_view(self.configurations@);
        let mut idx: usize = 0;
        while idx < self.configurations.len()
            invariant
                idx <= self.configurations@.len(),
                all == items_view(self.configurations@),
                body_base == sink_items(*t).take(body_base.len() as int) && sink_items(*t)
                    == body_base + locals_items(scope_locals(all.take(idx as int))),
            decreases self.configurations@.len() - idx,
        {
            let ghost next = all.take(idx as int + 1);
            let ghost ls = scope_locals(all.take(idx as int));
            let ghost ls2 = scope_locals(next);
            proof {
                assert(next.drop_last() =~= all.take(idx as int));
                assert(next.last() == all[idx as int]);
                assert(ls2 == scope_locals(next.drop_last()) + (match next.last() {
                    ConfigurationTypeView::Import(_) => Seq::<VariableView>::empty(),
                    ConfigurationTypeView::Local(v) => seq![v],
                }));
            }
            match &self.configurations[idx] {
                ConfigurationType::Local(v) => {
                    v.format_into(t);
                    proof {
                        assert(all[idx as int] == ConfigurationTypeView::Local(v@));
                        assert(ls2 =~= ls.push(v@));
                        assert(ls2.drop_last() =~= ls);
                        assert(locals_items(ls2) == locals_items(ls2.drop_last())
                            + variable_items(ls2.last()));
                        assert(locals_items(ls2) == locals_items(ls) + variable_items(v@));
                        assert(sink_items(*t) =~= body_base + locals_items(ls2));
                        assert(body_base == sink_items(*t).take(body_base.len() as int));
                    }
                },
                ConfigurationType::Import(_) => {
                    proof {
                        assert(ls2 =~= ls);
                        assert(locals_items(ls2) == locals_items(ls));
                        assert(body_base == sink_items(*t).take(body_base.len() as int));
                    }
                },
            }
            idx = idx + 1;
        }
        proof {
            assert(all.take(all.len() as int) =~= all);
        }
        sink_text(t, "imports = ");
        let refs = self.imports();
        refs.format_into(t);
        sink_text(t, ";");
        proof {
            lemma_norm_indent_after_text(sink_items(*t), -1);
        }
        sink_unindent(t);
        sink_text(t, "}");
        proof {
            assert(sink_items(*t) =~= mid + body_items(self@));
        }
    }

    /// Render the scope alone: the preamble — only when bindings are
    /// required — followed by the body, as output lines.  Where every
    /// reference has nonempty text, the lines are exactly the scope's
    /// first line and its tail lines.
    pub fn render_lines(&self) -> (r: Vec<String>)
        ensures
            r@.map_values(|s: String| s@) == scope_lines(self@),
            scope_ref_texts_nonempty(self@) ==> r@.map_values(|s: String| s@) == seq![
                scope_first_text(self@),
            ] + scope_tail_lines(self@, 0),
    {
        let mut t = sink_new();
        self.format_into(&mut t);
        proof {
            assert(sink_items(t) =~= scope_items(self@));
            if scope_ref_texts_nonempty(self@) {
                lemma_scope_lines(self@);
            }
        }
        sink_render(&t)
    }
}

/// The shape of a nonempty run of scope entries: it ends with the
/// closing `;` of the last scope and its break.
proof fn lemma_scopes_items_shape(ss: Seq<ConfigurationsView>)
    requires
        ss.len() > 0,
    ensures
        scopes_items(ss).len() >= 2,
        scopes_items(ss).last() == DocItem::Push,
        scopes_items(ss).drop_last().last() == DocItem::Text(";"@),
{
    let a = scopes_items(ss.drop_last());
    let e = scope_entry_items(ss.last());
    assert(scopes_items(ss) == a + e);
    assert(e.len() >= 3);
    assert(e.last() == DocItem::Push);
    assert(e.drop_last().last() == DocItem::Text(";"@)) by {
        let h = seq![DocItem::Text(ss.last().name + " = "@)] + scope_items(ss.last());
        let two = seq![DocItem::Text(";"@), DocItem::Push];
        assert(e == h + two);
        assert(e.drop_last() =~= h.push(DocItem::Text(";"@)));
    }
    assert(scopes_items(ss).last() == e.last());
    Seq::<DocItem>::drop_last_distributes_over_add(a, e);
    assert(scopes_items(ss).drop_last().last() == e.drop_last().last());
}

impl NixosConfigurations {
    /// Emit the collection onto the sink: one attribute set mapping
    /// each scope's name to its rendered scope, in order.
    pub fn format_into(&self, t: &mut Sink)
        ensures
            sink_items(*final(t)) == sink_items(*old(t)) + collection_items(self@),
    {
        let ghost base = sink_items(*t);
        sink_text(t, "{");
        if self.0.len() == 0 {
            sink_text(t, "}");
            proof {
                assert(self@.len() == 0);
                assert(sink_items(*t) =~= base + collection_items(self@));
            }
        } else {
            proof {
                lemma_norm_indent_after_text(sink_items(*t), 1);
            }
            sink_indent(t);
            let ghost prefix = base + seq![DocItem::Text("{"@), DocItem::Indent(1)];
            proof {
                assert(sink_items(*t) =~= prefix);
            }
            let ghost all = self@;
            let mut idx: usize = 0;
            while idx < self.0.len()
                invariant
                    idx <= self.0@.len(),
                    all == self@,
                    prefix == sink_items(*t).take(prefix.len() as int) && sink_items(*t) == prefix
                        + scopes_items(all.take(idx as int)),
                decreases self.0@.len() - idx,
            {
                let ghost next = all.take(idx as int + 1);
                proof {
                    assert(next.drop_last() =~= all.take(idx as int));
                    assert(next.last() == all[idx as int]);
                }
                let mut head = self.0[idx].name.clone();
                head.append(" = ");
                sink_text(t, head.as_str());
                self.0[idx].format_into(t);
                sink_text(t, ";");
                proof {
                    lemma_norm_push_after_text(sink_items(*t));
                }
                sink_push(t);
                proof {
                    assert(sink_items(*t) =~= prefix + scopes_items(next));
                    assert(prefix == sink_items(*t).take(prefix.len() as int));
                }
                idx = idx + 1;
            }
            proof {
                assert(all.take(all.len() as int) =~= all);
                lemma_scopes_items_shape(all);
                let s = sink_items(*t);
                let entries = scopes_items(all);
                assert(s == prefix + entries);
                assert(s.last() == entries.last());
                Seq::<DocItem>::drop_last_distributes_over_add(prefix, entries);
                assert(s.drop_last() == prefix + entries.drop_last());
                assert(s.drop_last().last() == entries.drop_last().last());
                lemma_norm_indent_pops_push(s, -1);
            }
            sink_unindent(t);
            sink_text(t, "}");
            proof {
                assert(sink_items(*t) =~= base + collection_items(self@));
            }
        }
    }

    /// Render the collection, as output lines.  Where every scope's
    /// references have nonempty text, the lines are exactly the opening
    /// brace, each scope's entry in order, and the closing brace.
    pub fn render_lines(&self) -> (r: Vec<String>)
        ensures
            r@.map_values(|s: String| s@) == collection_lines(self@),
            (forall|j: int| 0 <= j < self@.len() ==> scope_ref_texts_nonempty(#[trigger] self@[j]))
                ==> r@.map_values(|s: String| s@) == (if self@.len() == 0 {
                seq!["{"@ + "}"@]
            } else {
                seq!["{"@] + scopes_entries_lines(self@, 1) + seq!["}"@]
            }),
    {
        let mut t = sink_new();
        self.format_into(&mut t);
        proof {
            assert(sink_items(t) =~= collection_items(self@));
            if forall|j: int|
                0 <= j < self@.len() ==> scope_ref_texts_nonempty(#[trigger] self@[j]) {
                lemma_collection_lines(self@);
            }
        }
        sink_render(&t)
    }
}

} // verus!
