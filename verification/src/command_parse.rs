//! The item tree of a parsed module as nested plain values, ready to be
//! printed as JSON.
use crate::item::{chain, lemma_chain, run_len, Item, ItemKind, ItemView};
use vstd::prelude::*;
use vstd::string::StringExecFns;

verus! {

/// One item with the items under it.
#[derive(Debug)]
pub struct ItemViewJson<'a> {
    /// The item's kind, as its variant name.
    pub kind: String,
    /// The item's byte range.
    pub span: (usize, usize),
    /// The item's text.
    pub text: &'a str,
    /// The items directly under it.
    pub children: Vec<ItemViewJson<'a>>,
}

/// The name of an item kind.
pub open spec fn spec_kind_name(k: ItemKind) -> Seq<char> {
    match k {
        ItemKind::Variable => "Variable"@,
        ItemKind::Atom => "Atom"@,
        ItemKind::Integer => "Integer"@,
        ItemKind::Float => "Float"@,
        ItemKind::Char => "Char"@,
        ItemKind::String => "String"@,
        ItemKind::SigilString => "SigilString"@,
        ItemKind::Comment => "Comment"@,
        ItemKind::BinaryOp => "BinaryOp"@,
        ItemKind::BinaryOpExprs => "BinaryOpExprs"@,
        ItemKind::ModuleFunCall => "ModuleFunCall"@,
        ItemKind::FunCall => "FunCall"@,
        ItemKind::Match => "Match"@,
        ItemKind::MaybeMatch => "MaybeMatch"@,
        ItemKind::Args => "Args"@,
        ItemKind::Module => "Module"@,
        ItemKind::Attr => "Attr"@,
        ItemKind::FunDecl => "FunDecl"@,
        ItemKind::FunClause => "FunClause"@,
        ItemKind::Guard => "Guard"@,
        ItemKind::Body => "Body"@,
        ItemKind::Binary => "Binary"@,
        ItemKind::Case => "Case"@,
        ItemKind::CaseClauses => "CaseClauses"@,
        ItemKind::CaseClause => "CaseClause"@,
        ItemKind::MaybeExpr => "MaybeExpr"@,
        ItemKind::Clauses => "Clauses"@,
        ItemKind::ElseClause => "ElseClause"@,
        ItemKind::Tuple => "Tuple"@,
    }
}

/// The name of an item kind, as its variant reads.
pub fn kind_name(k: ItemKind) -> (s: &'static str)
    ensures
        s@ == spec_kind_name(k),
{
    match k {
        ItemKind::Variable => "Variable",
        ItemKind::Atom => "Atom",
        ItemKind::Integer => "Integer",
        ItemKind::Float => "Float",
        ItemKind::Char => "Char",
        ItemKind::String => "String",
        ItemKind::SigilString => "SigilString",
        ItemKind::Comment => "Comment",
        ItemKind::BinaryOp => "BinaryOp",
        ItemKind::BinaryOpExprs => "BinaryOpExprs",
        ItemKind::ModuleFunCall => "ModuleFunCall",
        ItemKind::FunCall => "FunCall",
        ItemKind::Match => "Match",
        ItemKind::MaybeMatch => "MaybeMatch",
        ItemKind::Args => "Args",
        ItemKind::Module => "Module",
        ItemKind::Attr => "Attr",
        ItemKind::FunDecl => "FunDecl",
        ItemKind::FunClause => "FunClause",
        ItemKind::Guard => "Guard",
        ItemKind::Body => "Body",
        ItemKind::Binary => "Binary",
        ItemKind::Case => "Case",
        ItemKind::CaseClauses => "CaseClauses",
        ItemKind::CaseClause => "CaseClause",
        ItemKind::MaybeExpr => "MaybeExpr",
        ItemKind::Clauses => "Clauses",
        ItemKind::ElseClause => "ElseClause",
        ItemKind::Tuple => "Tuple",
    }
}

/// Whether every item lies inside `text` on character boundaries.
pub open spec fn items_fit(items: Seq<Item>, text: &str) -> bool {
    forall|k: int| 0 <= k < items.len() ==> (#[trigger] items[k]).span.fits(text)
}

/// Whether every item lies inside `text`; see [`items_fit`].
pub fn check_items_fit(items: &[Item], text: &str) -> (b: bool)
    ensures
        b == items_fit(items@, text),
{
    let mut k: usize = 0;
    while k < items.len()
        invariant
            k <= items@.len(),
            forall|j: int| 0 <= j < k ==> (#[trigger] items@[j]).span.fits(text),
        decreases items@.len() - k,
    {
        let sp = items[k].span;
        if !crate::span::Span::new(sp.start, sp.end).fits_in(text) {
            assert(!items@[k as int].span.fits(text));
            return false;
        }
        k += 1;
    }
    true
}

/// `j` is the tree of item `i` of `items`: its kind's name, its range, its
/// text, and the trees of its children in order.
pub open spec fn json_ok(j: ItemViewJson, items: Seq<Item>, text: &str, i: int) -> bool
    decreases j,
{
    let cs = chain(items, i + 1, i + run_len(items, i));
    &&& j.kind@ == spec_kind_name(items[i].kind)
    &&& j.span == (items[i].span.start, items[i].span.end)
    &&& j.text@ == items[i].span.spec_text(text)
    &&& j.children@.len() == cs.len()
    &&& forall|k: int| 0 <= k < j.children@.len() ==> json_ok(#[trigger] j.children@[k], items, text, cs[k])
}

/// The tree of the item `view` points at.
pub fn to_json<'a>(view: ItemView<'a>, text: &'a str) -> (j: ItemViewJson<'a>)
    requires
        view.valid(),
        items_fit(view.items@, text),
    ensures
        json_ok(j, view.items@, text, view.i as int),
    decreases view.items@.len() - view.i,
{
    let children = view.children();
    let all = children.to_vec();
    proof {
        lemma_chain(view.items@, children.start as int, children.end as int);
    }
    let ghost cs = children.indices();
    let mut out: Vec<ItemViewJson<'a>> = Vec::new();
    let mut k: usize = 0;
    while k < all.len()
        invariant
            view.valid(),
            items_fit(view.items@, text),
            cs == chain(view.items@, view.i + 1, view.i + run_len(view.items@, view.i as int)),
            all@.len() == cs.len(),
            forall|m: int| 0 <= m < all@.len() ==> (#[trigger] all@[m]).items == view.items && all@[m].i == cs[m],
            forall|m: int| 0 <= m < cs.len() ==> view.i + 1 <= #[trigger] cs[m] < view.items@.len(),
            k <= all@.len(),
            out@.len() == k,
            forall|m: int| 0 <= m < k ==> json_ok(#[trigger] out@[m], view.items@, text, cs[m]),
        decreases all@.len() - k,
    {
        let c = all[k];
        assert(c.i == cs[k as int]);
        let cj = to_json(c, text);
        out.push(cj);
        k += 1;
    }
    let sp = view.span();
    assert(view.items@[view.i as int].span.fits(text));
    let t = view.text(text);
    ItemViewJson { kind: String::from_str(kind_name(view.kind())), span: (sp.start, sp.end), text: t, children: out }
}

} // verus!
