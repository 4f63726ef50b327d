//! Flat item lists: a syntax tree laid out in preorder, each item covering
//! a byte range of the parsed text, with views that walk it.
use crate::parse::ParseError;
use vstd::prelude::*;
use vstd::string::StringExecFns;

verus! {

/// One syntax item: its kind and byte range.
#[derive(Debug, Clone, Copy, PartialEq, Eq, Structural)]
pub struct Item {
    pub kind: ItemKind,
    pub span: Span,
}

impl Item {
    /// Builds an item.
    pub fn new(kind: ItemKind, span: Span) -> (r: Item)
        ensures
            r.kind == kind && r.span == span,
    {
        Item { kind, span }
    }

    /// The text of the item.
    pub fn text(self, full_text: &str) -> (t: &str)
        requires
            self.span.fits(full_text),
        ensures
            t@ == self.span.spec_text(full_text),
    {
        self.span.text(full_text)
    }
}

/// Item kinds.
#[derive(Debug, Clone, Copy, PartialEq, Eq, Structural)]
pub enum ItemKind {
    Variable,
    Atom,
    Integer,
    Float,
    Char,
    String,
    SigilString,
    Comment,
    BinaryOp,
    BinaryOpExprs,
    ModuleFunCall,
    FunCall,
    Match,
    MaybeMatch,
    Args,
    Module,
    Attr,
    FunDecl,
    FunClause,
    Guard,
    Body,
    Binary,
    Case,
    CaseClauses,
    CaseClause,
    MaybeExpr,
    Clauses,
    ElseClause,
    Tuple,
}

/// Half-open byte range `[start, end)` of the parsed text.
#[derive(Debug, Clone, Copy, PartialEq, Eq, Structural)]
pub struct Span {
    pub start: usize,
    pub end: usize,
}

/// The index after the run of items that item `k` covers: the first later
/// item, from `m` on, that starts at or after `k`'s end.
pub open spec fn run_end(items: Seq<Item>, k: int, m: int) -> int
    decreases items.len() - m,
{
    if m < 0 || m >= items.len() {
        items.len() as int
    } else if items[m].span.start >= items[k].span.end {
        m
    } else {
        run_end(items, k, m + 1)
    }
}

/// The number of items that item `k` covers, itself included.
pub open spec fn run_len(items: Seq<Item>, k: int) -> int {
    run_end(items, k, k + 1) - k
}

/// The items at `start` and after it, each following the run of the
/// previous one, below `end`.
pub open spec fn chain(items: Seq<Item>, start: int, end: int) -> Seq<int>
    decreases end - start,
{
    if start < 0 || start >= end || start >= items.len() || run_len(items, start) < 1 {
        Seq::empty()
    } else if start + run_len(items, start) >= end {
        seq![start]
    } else {
        seq![start] + chain(items, start + run_len(items, start), end)
    }
}

/// Every index of a chain lies between its start and end, inside the list.
pub proof fn lemma_chain(items: Seq<Item>, start: int, end: int)
    ensures
        forall|k: int| 0 <= k < chain(items, start, end).len() ==> start <= #[trigger] chain(items, start, end)[k] < end
            && chain(items, start, end)[k] < items.len(),
    decreases end - start,
{
    if !(start < 0 || start >= end || start >= items.len() || run_len(items, start) < 1) {
        let next = start + run_len(items, start);
        if next < end {
            lemma_chain(items, next, end);
            let c = chain(items, start, end);
            assert(c == seq![start] + chain(items, next, end));
            assert forall|k: int| 0 <= k < c.len() implies start <= #[trigger] c[k] < end && c[k] < items.len() by {
                if k > 0 {
                    assert(c[k] == chain(items, next, end)[k - 1]);
                }
            }
        }
    }
}

/// `run_end` lies between `m` and the length.
pub proof fn lemma_run_end(items: Seq<Item>, k: int, m: int)
    requires
        0 <= m <= items.len(),
    ensures
        m <= run_end(items, k, m) <= items.len(),
    decreases items.len() - m,
{
    if m < items.len() && !(items[m].span.start >= items[k].span.end) {
        lemma_run_end(items, k, m + 1);
    }
}

/// The run of an item is exactly what it covers: every later item of its
/// run starts before the item's end, and the item after the run, if any,
/// starts at or after it. This is what [`Span::items`] and
/// [`ItemView::items`] give.
pub proof fn law_run_is_covered(items: Seq<Item>, k: int)
    requires
        0 <= k < items.len(),
    ensures
        k < run_end(items, k, k + 1) <= items.len(),
        forall|j: int| k < j < run_end(items, k, k + 1) ==> #[trigger] items[j].span.start < items[k].span.end,
        run_end(items, k, k + 1) < items.len() ==> items[run_end(items, k, k + 1)].span.start >= items[k].span.end,
{
    lemma_run_covered_from(items, k, k + 1);
}

/// The number of items from position `m` on that start before `end`.
pub open spec fn count_starting_before(items: Seq<Item>, end: usize, m: int) -> nat
    decreases items.len() - m,
{
    if m < 0 || m >= items.len() {
        0
    } else {
        count_starting_before(items, end, m + 1) + if items[m].span.start < end { 1nat } else { 0nat }
    }
}

/// Whether the items from position `m` on start in order.
pub open spec fn starts_sorted(items: Seq<Item>, m: int) -> bool {
    forall|a: int, b: int| m <= a <= b < items.len() ==> #[trigger] items[a].span.start <= #[trigger] items[b].span.start
}

/// With the items in start order, [`Span::items`] counts: it covers the
/// first item and every later item that starts before the first one's end,
/// so one more item than those that start before that end.
pub proof fn law_items_count(items: Seq<Item>)
    requires
        items.len() > 0,
        starts_sorted(items, 1),
    ensures
        run_end(items, 0, 1) == 1 + count_starting_before(items, items[0].span.end, 1),
{
    lemma_count_run(items, 1);
}

/// See [`law_items_count`], from position `m` on.
proof fn lemma_count_run(items: Seq<Item>, m: int)
    requires
        1 <= m <= items.len(),
        starts_sorted(items, 1),
    ensures
        run_end(items, 0, m) == m + count_starting_before(items, items[0].span.end, m),
    decreases items.len() - m,
{
    if m < items.len() {
        if items[m].span.start >= items[0].span.end {
            lemma_count_none(items, m, m);
        } else {
            lemma_count_run(items, m + 1);
        }
    }
}

/// Items at or after `j` start no earlier than item `m`, so none of them
/// starts before the first item's end when item `m` does not.
proof fn lemma_count_none(items: Seq<Item>, m: int, j: int)
    requires
        1 <= m <= j <= items.len(),
        m < items.len(),
        starts_sorted(items, 1),
        items[m].span.start >= items[0].span.end,
    ensures
        count_starting_before(items, items[0].span.end, j) == 0,
    decreases items.len() - j,
{
    if j < items.len() {
        assert(items[m].span.start <= items[j].span.start);
        lemma_count_none(items, m, j + 1);
    }
}

/// See [`law_run_is_covered`], from position `m` on.
proof fn lemma_run_covered_from(items: Seq<Item>, k: int, m: int)
    requires
        0 <= k < m <= items.len(),
    ensures
        m <= run_end(items, k, m) <= items.len(),
        forall|j: int| m <= j < run_end(items, k, m) ==> #[trigger] items[j].span.start < items[k].span.end,
        run_end(items, k, m) < items.len() ==> items[run_end(items, k, m)].span.start >= items[k].span.end,
    decreases items.len() - m,
{
    if m < items.len() && !(items[m].span.start >= items[k].span.end) {
        lemma_run_covered_from(items, k, m + 1);
    }
}

impl Span {
    /// Creates a half-open range.
    pub fn new(start: usize, end: usize) -> (s: Span)
        ensures
            s.start == start && s.end == end,
    {
        Span { start, end }
    }

    /// Whether this range can slice `text`.
    pub open spec fn fits(self, text: &str) -> bool {
        crate::span::Span { start: self.start, end: self.end }.fits(vstd::string::StringSliceAdditionalSpecFns::spec_bytes(text))
    }

    /// The characters of `text` in this range.
    pub open spec fn spec_text(self, text: &str) -> Seq<char> {
        vstd::utf8::decode_utf8(vstd::string::StringSliceAdditionalSpecFns::spec_bytes(text).subrange(self.start as int, self.end as int))
    }

    /// Returns the slice of `full_text` covered by this range.
    pub fn text(self, full_text: &str) -> (t: &str)
        requires
            self.fits(full_text),
        ensures
            t@ == self.spec_text(full_text),
    {
        let t = crate::span::Span::new(self.start, self.end).text(full_text);
        proof {
            vstd::utf8::encode_utf8_decode_utf8(t@);
        }
        t
    }

    /// The items this range covers in `items`, which must start with the
    /// item of this range: that item and the following items that start
    /// before the range's end (an empty range covers its own item only).
    pub fn items(self, items: &[Item]) -> (r: &[Item])
        requires
            items@.len() > 0,
            items@[0].span == self,
        ensures
            r@ == items@.subrange(0, run_end(items@, 0, 1)),
            r@.len() >= 1,
    {
        let mut n: usize = 1;
        while n < items.len() && items[n].span.start < self.end
            invariant
                1 <= n <= items@.len(),
                items@[0].span == self,
                run_end(items@, 0, 1) == run_end(items@, 0, n as int),
            decreases items@.len() - n,
        {
            n += 1;
        }
        proof {
            lemma_run_end(items@, 0, n as int);
        }
        let (r, _) = items.split_at(n);
        assert(r@ =~= items@.subrange(0, run_end(items@, 0, 1)));
        r
    }

    /// Returns whether `other` lies entirely inside this range.
    pub fn contains(self, other: Span) -> (b: bool)
        ensures
            b == (self.start <= other.start && other.end <= self.end),
    {
        self.start <= other.start && other.end <= self.end
    }
}

/// One item of an item list, with the list it lives in.
#[derive(Debug, Clone, Copy)]
pub struct ItemView<'a> {
    pub items: &'a [Item],
    pub i: usize,
}

impl<'a> ItemView<'a> {
    /// Whether the view points into its list.
    pub open spec fn valid(self) -> bool {
        self.i < self.items@.len()
    }

    /// A view of item `i`.
    pub fn new(items: &'a [Item], i: usize) -> (v: ItemView<'a>)
        ensures
            v.items == items && v.i == i,
    {
        ItemView { items, i }
    }

    /// The item's kind.
    pub fn kind(&self) -> (k: ItemKind)
        requires
            self.valid(),
        ensures
            k == self.items@[self.i as int].kind,
    {
        self.items[self.i].kind
    }

    /// The item's range.
    pub fn span(&self) -> (s: Span)
        requires
            self.valid(),
        ensures
            s == self.items@[self.i as int].span,
    {
        self.items[self.i].span
    }

    /// The item's text.
    pub fn text<'b>(&self, text: &'b str) -> (t: &'b str)
        requires
            self.valid(),
            self.items@[self.i as int].span.fits(text),
        ensures
            t@ == self.items@[self.i as int].span.spec_text(text),
    {
        self.span().text(text)
    }

    /// The items this item covers, itself first.
    pub fn items(&self) -> (r: &'a [Item])
        requires
            self.valid(),
        ensures
            1 <= run_len(self.items@, self.i as int),
            self.i + run_len(self.items@, self.i as int) <= self.items@.len(),
            r@ == self.items@.subrange(self.i as int, self.i + run_len(self.items@, self.i as int)),
    {
        let (_, rest) = self.items.split_at(self.i);
        assert(rest@ =~= self.items@.subrange(self.i as int, self.items@.len() as int));
        let r = self.span().items(rest);
        proof {
            lemma_shift_run(self.items@, self.i as int);
            lemma_run_end(self.items@, self.i as int, self.i + 1);
            lemma_run_end(rest@, 0, 1);
            assert(r@ =~= self.items@.subrange(self.i as int, self.i + run_len(self.items@, self.i as int)));
        }
        r
    }

    /// The index of the item.
    pub fn start_index(&self) -> (n: usize)
        ensures
            n == self.i,
    {
        self.i
    }

    /// The index after the items this item covers.
    pub fn end_index(&self) -> (n: usize)
        requires
            self.valid(),
        ensures
            n == self.i + run_len(self.items@, self.i as int),
            self.i < n <= self.items@.len(),
    {
        let r = self.items();
        let total = self.items.len();
        assert(self.i + r@.len() <= total);
        self.i + r.len()
    }

    /// The nearest earlier item whose range contains this one.
    pub fn parent(&self) -> (p: Option<ItemView<'a>>)
        requires
            self.valid(),
        ensures
            p matches Some(v) ==> v.items == self.items && v.i < self.i
                && self.items@[v.i as int].span.start <= self.items@[self.i as int].span.start
                && self.items@[self.i as int].span.end <= self.items@[v.i as int].span.end
                && forall|j: int| v.i < j < self.i ==> !(#[trigger] self.items@[j].span.start <= self.items@[self.i as int].span.start
                    && self.items@[self.i as int].span.end <= self.items@[j].span.end),
            p is None ==> forall|j: int| 0 <= j < self.i ==> !(#[trigger] self.items@[j].span.start <= self.items@[self.i as int].span.start
                && self.items@[self.i as int].span.end <= self.items@[j].span.end),
            match p {
                Some(v) => spec_parent(self.items@, self.i as int) == Some(v.i as int),
                None => spec_parent(self.items@, self.i as int) is None,
            },
    {
        let span = self.span();
        let mut j = self.i;
        while j > 0
            invariant
                j <= self.i < self.items@.len(),
                span == self.items@[self.i as int].span,
                spec_parent(self.items@, self.i as int) == parent_below(self.items@, self.i as int, j as int),
                forall|m: int| j <= m < self.i ==> !(#[trigger] self.items@[m].span.start <= span.start && span.end <= self.items@[m].span.end),
            decreases j,
        {
            if self.items[j - 1].span.contains(span) {
                return Some(ItemView::new(self.items, j - 1));
            }
            j -= 1;
        }
        None
    }

    /// The items directly under this one.
    pub fn children(&self) -> (c: ItemsView<'a>)
        requires
            self.valid(),
        ensures
            c.items == self.items,
            c.start == self.i + 1,
            c.end == self.i + run_len(self.items@, self.i as int),
    {
        let end = self.end_index();
        ItemsView::new(self.items, self.i + 1, end)
    }

    /// This item and the ones after it under the same parent.
    pub fn siblings(&self) -> (c: ItemsView<'a>)
        requires
            self.valid(),
        ensures
            c.items == self.items,
            c.start == self.i,
            c.end == match spec_parent(self.items@, self.i as int) {
                Some(p) => p + run_len(self.items@, p),
                None => self.items@.len() as int,
            },
    {
        let end = match self.parent() {
            Some(p) => p.end_index(),
            None => self.items.len(),
        };
        ItemsView::new(self.items, self.i, end)
    }

    /// Fails unless the item has kind `kind`.
    pub fn expect_kind(&self, kind: ItemKind) -> (r: Result<(), ParseError>)
        requires
            self.valid(),
        ensures
            r is Ok <==> self.items@[self.i as int].kind == kind,
            r matches Err(e) ==> e.span == self.items@[self.i as int].span,
    {
        if self.kind() == kind {
            Ok(())
        } else {
            Err(ParseError::new(self.span(), String::from_str("unexpected item kind")))
        }
    }
}

/// The nearest item below position `j` whose range contains item `i`.
pub open spec fn parent_below(items: Seq<Item>, i: int, j: int) -> Option<int>
    decreases j,
{
    if j <= 0 {
        None
    } else if items[j - 1].span.start <= items[i].span.start && items[i].span.end <= items[j - 1].span.end {
        Some(j - 1)
    } else {
        parent_below(items, i, j - 1)
    }
}

/// The position of item `i`'s parent: the nearest earlier item whose range
/// contains it.
pub open spec fn spec_parent(items: Seq<Item>, i: int) -> Option<int> {
    parent_below(items, i, i)
}

/// Shifting a list by `i` shifts the run lengths with it.
pub proof fn lemma_shift_run(items: Seq<Item>, i: int)
    requires
        0 <= i < items.len(),
    ensures
        run_end(items.subrange(i, items.len() as int), 0, 1) + i == run_end(items, i, i + 1),
{
    lemma_shift_run_from(items, i, i + 1);
}

/// See [`lemma_shift_run`].
pub proof fn lemma_shift_run_from(items: Seq<Item>, i: int, m: int)
    requires
        0 <= i < m <= items.len(),
    ensures
        run_end(items.subrange(i, items.len() as int), 0, m - i) + i == run_end(items, i, m),
    decreases items.len() - m,
{
    let rest = items.subrange(i, items.len() as int);
    if m < items.len() {
        assert(rest[m - i] == items[m]);
        assert(rest[0] == items[i]);
        lemma_shift_run_from(items, i, m + 1);
    }
}

/// A run of sibling items between `start` and `end`.
#[derive(Debug, Clone, Copy)]
pub struct ItemsView<'a> {
    pub items: &'a [Item],
    pub start: usize,
    pub end: usize,
}

impl<'a> ItemsView<'a> {
    /// The indices this run visits, in order.
    pub open spec fn indices(self) -> Seq<int> {
        chain(self.items@, self.start as int, self.end as int)
    }

    /// A run from `start` below `end`.
    pub fn new(items: &'a [Item], start: usize, end: usize) -> (v: ItemsView<'a>)
        ensures
            v.items == items && v.start == start && v.end == end,
    {
        ItemsView { items, start, end }
    }

    /// The next item of the run, advancing past the items it covers.
    pub fn next(&mut self) -> (r: Option<ItemView<'a>>)
        ensures
            final(self).items == old(self).items,
            final(self).end == old(self).end,
            match r {
                Some(v) => v.items == old(self).items && old(self).indices().len() > 0 && v.i as int == old(self).indices()[0]
                    && final(self).indices() == old(self).indices().drop_first(),
                None => old(self).indices().len() == 0 && final(self).indices().len() == 0,
            },
    {
        let i = self.start;
        if i >= self.end || i >= self.items.len() {
            return None;
        }
        let v = ItemView::new(self.items, i);
        let n = v.items().len();
        proof {
            lemma_run_end(self.items@, i as int, i + 1);
        }
        assert(n as int == run_len(self.items@, i as int));
        self.start = i + n;
        Some(v)
    }

    /// The number of items in the run.
    pub fn count(self) -> (n: usize)
        ensures
            n == self.indices().len(),
    {
        self.to_vec().len()
    }

    /// The items of the run, in order.
    pub fn to_vec(self) -> (v: Vec<ItemView<'a>>)
        ensures
            v@.len() == self.indices().len(),
            forall|k: int| 0 <= k < v@.len() ==> (#[trigger] v@[k]).items == self.items && v@[k].i == self.indices()[k],
    {
        let mut it = self;
        let mut out: Vec<ItemView<'a>> = Vec::new();
        let ghost all = self.indices();
        loop
            invariant
                it.items == self.items,
                it.end == self.end,
                out@.len() <= all.len(),
                all == self.indices(),
                it.indices() == all.subrange(out@.len() as int, all.len() as int),
                forall|k: int| 0 <= k < out@.len() ==> (#[trigger] out@[k]).items == self.items && out@[k].i == all[k],
            ensures
                out@.len() == all.len(),
                forall|k: int| 0 <= k < out@.len() ==> (#[trigger] out@[k]).items == self.items && out@[k].i == all[k],
            decreases it.indices().len(),
        {
            match it.next() {
                Some(x) => {
                    assert(all.subrange(out@.len() as int, all.len() as int).drop_first() =~= all.subrange((out@.len() + 1) as int, all.len() as int));
                    out.push(x);
                },
                None => break,
            }
        }
        out
    }

    /// The `n`-th item of the run.
    pub fn nth(self, n: usize) -> (r: Option<ItemView<'a>>)
        ensures
            r is Some <==> n < self.indices().len(),
            r matches Some(v) ==> v.items == self.items && v.i == self.indices()[n as int],
    {
        let v = self.to_vec();
        if n < v.len() {
            Some(v[n])
        } else {
            None
        }
    }

    /// The items at even positions of the run.
    pub fn step_even(self) -> (v: Vec<ItemView<'a>>)
        ensures
            v@.len() == (self.indices().len() + 1) / 2,
            forall|k: int| 0 <= k < v@.len() ==> (#[trigger] v@[k]).items == self.items && v@[k].i == self.indices()[2 * k],
    {
        let all = self.to_vec();
        let mut out: Vec<ItemView<'a>> = Vec::new();
        let mut k: usize = 0;
        while k < all.len()
            invariant
                all@.len() == self.indices().len(),
                forall|j: int| 0 <= j < all@.len() ==> (#[trigger] all@[j]).items == self.items && all@[j].i == self.indices()[j],
                k <= all@.len(),
                out@.len() == (k + 1) / 2,
                forall|j: int| 0 <= j < out@.len() ==> (#[trigger] out@[j]).items == self.items && out@[j].i == self.indices()[2 * j],
            decreases all@.len() - k,
        {
            if k % 2 == 0 {
                out.push(all[k]);
            }
            k += 1;
        }
        out
    }

    /// The items at odd positions of the run.
    pub fn step_odd(self) -> (v: Vec<ItemView<'a>>)
        ensures
            v@.len() == self.indices().len() / 2,
            forall|k: int| 0 <= k < v@.len() ==> (#[trigger] v@[k]).items == self.items && v@[k].i == self.indices()[2 * k + 1],
    {
        let all = self.to_vec();
        let mut out: Vec<ItemView<'a>> = Vec::new();
        let mut k: usize = 0;
        while k < all.len()
            invariant
                all@.len() == self.indices().len(),
                forall|j: int| 0 <= j < all@.len() ==> (#[trigger] all@[j]).items == self.items && all@[j].i == self.indices()[j],
                k <= all@.len(),
                out@.len() == k / 2,
                forall|j: int| 0 <= j < out@.len() ==> (#[trigger] out@[j]).items == self.items && out@[j].i == self.indices()[2 * j + 1],
            decreases all@.len() - k,
        {
            if k % 2 == 1 {
                out.push(all[k]);
            }
            k += 1;
        }
        out
    }
}


impl<'a> ItemsView<'a> {
    /// This run is the children of item `k` of `items`.
    pub open spec fn under(self, items: &'a [Item], k: int) -> bool {
        &&& self.items == items
        &&& self.start == k + 1
        &&& self.end == k + run_len(items@, k)
    }

    /// Every item of the run has kind `kind`.
    pub open spec fn all_kind(self, kind: ItemKind) -> bool {
        forall|k: int| 0 <= k < self.indices().len() ==> (#[trigger] self.items@[self.indices()[k]]).kind == kind
    }

    /// The children of item `k` of `items`, as a run.
    pub open spec fn children_run(items: &'a [Item], k: int) -> ItemsView<'a> {
        ItemsView { items, start: (k + 1) as usize, end: (k + run_len(items@, k)) as usize }
    }

    /// The children of the `n`-th item of the run.
    fn nth_children(self, n: usize) -> (c: ItemsView<'a>)
        requires
            n < self.indices().len(),
        ensures
            c.under(self.items, self.indices()[n as int]),
    {
        proof {
            lemma_chain(self.items@, self.start as int, self.end as int);
        }
        match self.nth(n) {
            Some(v) => v.children(),
            None => {
                assert(false);
                ItemsView::new(self.items, 0, 0)
            },
        }
    }

    /// The `n`-th item of the run, which exists.
    fn nth_item(self, n: usize) -> (v: ItemView<'a>)
        requires
            n < self.indices().len(),
        ensures
            v.items == self.items && v.i == self.indices()[n as int],
            v.valid(),
    {
        proof {
            lemma_chain(self.items@, self.start as int, self.end as int);
        }
        match self.nth(n) {
            Some(v) => v,
            None => {
                assert(false);
                ItemView::new(self.items, 0)
            },
        }
    }
}

/// The operands and operators under a `BinaryOpExprs` item, alternating.
#[derive(Debug, Clone)]
pub struct BinaryOpExprsView<'a>(pub ItemsView<'a>);

impl<'a> BinaryOpExprsView<'a> {
    /// The view of `item`, which must be a `BinaryOpExprs` item.
    pub fn new(item: ItemView<'a>) -> (r: Result<Self, ParseError>)
        requires
            item.valid(),
        ensures
            r is Ok <==> item.items@[item.i as int].kind == ItemKind::BinaryOpExprs,
            r matches Ok(v) ==> v.0.under(item.items, item.i as int),
    {
        item.expect_kind(ItemKind::BinaryOpExprs)?;
        Ok(BinaryOpExprsView(item.children()))
    }

    /// The operands: the children at even positions.
    pub fn exprs(&self) -> (v: Vec<ItemView<'a>>)
        ensures
            v@.len() == (self.0.indices().len() + 1) / 2,
            forall|k: int| 0 <= k < v@.len() ==> (#[trigger] v@[k]).items == self.0.items && v@[k].i == self.0.indices()[2 * k],
    {
        self.0.step_even()
    }

    /// The operators: the children at odd positions.
    pub fn ops(&self) -> (v: Vec<ItemView<'a>>)
        ensures
            v@.len() == self.0.indices().len() / 2,
            forall|k: int| 0 <= k < v@.len() ==> (#[trigger] v@[k]).items == self.0.items && v@[k].i == self.0.indices()[2 * k + 1],
    {
        self.0.step_odd()
    }
}

/// The parts of a `ModuleFunCall` item: module, function, arguments.
#[derive(Debug, Clone)]
pub struct ModuleFunCallView<'a>(pub ItemsView<'a>);

impl<'a> ModuleFunCallView<'a> {
    /// The view of `item`, which must be a `ModuleFunCall` item.
    pub fn new(item: ItemView<'a>) -> (r: Result<Self, ParseError>)
        requires
            item.valid(),
        ensures
            r is Ok <==> item.items@[item.i as int].kind == ItemKind::ModuleFunCall,
            r matches Ok(v) ==> v.0.under(item.items, item.i as int),
    {
        item.expect_kind(ItemKind::ModuleFunCall)?;
        Ok(ModuleFunCallView(item.children()))
    }

    /// The module name: the first child.
    pub fn module_name(&self) -> (v: ItemView<'a>)
        requires
            self.0.indices().len() >= 1,
        ensures
            v.items == self.0.items && v.i == self.0.indices()[0] && v.valid(),
    {
        self.0.nth_item(0)
    }

    /// The function name: the second child.
    pub fn function_name(&self) -> (v: ItemView<'a>)
        requires
            self.0.indices().len() >= 2,
        ensures
            v.items == self.0.items && v.i == self.0.indices()[1] && v.valid(),
    {
        self.0.nth_item(1)
    }

    /// The arguments: the children of the third child.
    pub fn args(&self) -> (c: ItemsView<'a>)
        requires
            self.0.indices().len() >= 3,
        ensures
            c.under(self.0.items, self.0.indices()[2]),
    {
        self.0.nth_children(2)
    }
}

/// The clauses of a `FunDecl` item.
#[derive(Debug, Clone)]
pub struct FunDeclView<'a>(pub ItemsView<'a>);

impl<'a> FunDeclView<'a> {
    /// The view of `item`, which must be a `FunDecl` item.
    pub fn new(item: ItemView<'a>) -> (r: Result<Self, ParseError>)
        requires
            item.valid(),
        ensures
            r is Ok <==> item.items@[item.i as int].kind == ItemKind::FunDecl,
            r matches Ok(v) ==> v.0.under(item.items, item.i as int),
    {
        item.expect_kind(ItemKind::FunDecl)?;
        Ok(FunDeclView(item.children()))
    }

    /// The clauses, each a `FunClause` child.
    pub fn clauses(&self) -> (v: Vec<FunClauseView<'a>>)
        requires
            self.0.all_kind(ItemKind::FunClause),
        ensures
            v@.len() == self.0.indices().len(),
            forall|k: int| 0 <= k < v@.len() ==> (#[trigger] v@[k]).0.under(self.0.items, self.0.indices()[k]),
    {
        let all = self.0.to_vec();
        proof {
            lemma_chain(self.0.items@, self.0.start as int, self.0.end as int);
        }
        let mut out: Vec<FunClauseView<'a>> = Vec::new();
        let mut k: usize = 0;
        while k < all.len()
            invariant
                self.0.all_kind(ItemKind::FunClause),
                all@.len() == self.0.indices().len(),
                forall|j: int| 0 <= j < all@.len() ==> (#[trigger] all@[j]).items == self.0.items && all@[j].i == self.0.indices()[j],
                forall|j: int| 0 <= j < self.0.indices().len() ==> #[trigger] self.0.indices()[j] < self.0.items@.len(),
                k <= all@.len(),
                out@.len() == k,
                forall|j: int| 0 <= j < k ==> (#[trigger] out@[j]).0.under(self.0.items, self.0.indices()[j]),
            decreases all@.len() - k,
        {
            assert(self.0.items@[self.0.indices()[k as int]].kind == ItemKind::FunClause);
            match FunClauseView::new(all[k]) {
                Ok(c) => out.push(c),
                Err(_) => {
                    assert(false);
                },
            }
            k += 1;
        }
        out
    }
}

/// The parts of a `FunClause` item: name, arguments, guard, body.
#[derive(Debug, Clone)]
pub struct FunClauseView<'a>(pub ItemsView<'a>);

impl<'a> FunClauseView<'a> {
    /// The view of `item`, which must be a `FunClause` item.
    pub fn new(item: ItemView<'a>) -> (r: Result<Self, ParseError>)
        requires
            item.valid(),
        ensures
            r is Ok <==> item.items@[item.i as int].kind == ItemKind::FunClause,
            r matches Ok(v) ==> v.0.under(item.items, item.i as int),
    {
        item.expect_kind(ItemKind::FunClause)?;
        Ok(FunClauseView(item.children()))
    }

    /// The function name: the first child.
    pub fn name(&self) -> (v: ItemView<'a>)
        requires
            self.0.indices().len() >= 1,
        ensures
            v.items == self.0.items && v.i == self.0.indices()[0] && v.valid(),
    {
        self.0.nth_item(0)
    }

    /// The arguments: the children of the second child.
    pub fn args(&self) -> (c: ItemsView<'a>)
        requires
            self.0.indices().len() >= 2,
        ensures
            c.under(self.0.items, self.0.indices()[1]),
    {
        self.0.nth_children(1)
    }

    /// The guard: the children of the third child.
    pub fn guard(&self) -> (c: ItemsView<'a>)
        requires
            self.0.indices().len() >= 3,
        ensures
            c.under(self.0.items, self.0.indices()[2]),
    {
        self.0.nth_children(2)
    }

    /// The body: the children of the fourth child.
    pub fn body(&self) -> (c: ItemsView<'a>)
        requires
            self.0.indices().len() >= 4,
        ensures
            c.under(self.0.items, self.0.indices()[3]),
    {
        self.0.nth_children(3)
    }
}

/// The parts of a `Case` item: the matched expression and the clauses.
#[derive(Debug, Clone)]
pub struct CaseView<'a>(pub ItemsView<'a>);

impl<'a> CaseView<'a> {
    /// The view of `item`, which must be a `Case` item.
    pub fn new(item: ItemView<'a>) -> (r: Result<Self, ParseError>)
        requires
            item.valid(),
        ensures
            r is Ok <==> item.items@[item.i as int].kind == ItemKind::Case,
            r matches Ok(v) ==> v.0.under(item.items, item.i as int),
    {
        item.expect_kind(ItemKind::Case)?;
        Ok(CaseView(item.children()))
    }

    /// The matched expression: the first child.
    pub fn expr(&self) -> (v: ItemView<'a>)
        requires
            self.0.indices().len() >= 1,
        ensures
            v.items == self.0.items && v.i == self.0.indices()[0] && v.valid(),
    {
        self.0.nth_item(0)
    }

    /// The clauses: the children of the second child, each a
    /// `CaseClause`.
    pub fn clauses(&self) -> (v: Vec<CaseClauseView<'a>>)
        requires
            self.0.indices().len() >= 2,
            ItemsView::children_run(self.0.items, self.0.indices()[1]).all_kind(ItemKind::CaseClause),
        ensures
            v@.len() == ItemsView::children_run(self.0.items, self.0.indices()[1]).indices().len(),
            forall|k: int| 0 <= k < v@.len() ==> (#[trigger] v@[k]).0.under(self.0.items,
                ItemsView::children_run(self.0.items, self.0.indices()[1]).indices()[k]),
    {
        let c = self.0.nth_children(1);
        let all = c.to_vec();
        proof {
            lemma_chain(c.items@, c.start as int, c.end as int);
        }
        let mut out: Vec<CaseClauseView<'a>> = Vec::new();
        let mut k: usize = 0;
        while k < all.len()
            invariant
                c.all_kind(ItemKind::CaseClause),
                c.items == self.0.items,
                all@.len() == c.indices().len(),
                forall|j: int| 0 <= j < all@.len() ==> (#[trigger] all@[j]).items == c.items && all@[j].i == c.indices()[j],
                forall|j: int| 0 <= j < c.indices().len() ==> #[trigger] c.indices()[j] < c.items@.len(),
                k <= all@.len(),
                out@.len() == k,
                forall|j: int| 0 <= j < k ==> (#[trigger] out@[j]).0.under(c.items, c.indices()[j]),
            decreases all@.len() - k,
        {
            assert(c.items@[c.indices()[k as int]].kind == ItemKind::CaseClause);
            match CaseClauseView::new(all[k]) {
                Ok(v) => out.push(v),
                Err(_) => {
                    assert(false);
                },
            }
            k += 1;
        }
        out
    }
}


/// The parts of a `CaseClause` item: pattern, guard, body.
#[derive(Debug, Clone)]
pub struct CaseClauseView<'a>(pub ItemsView<'a>);

impl<'a> CaseClauseView<'a> {
    /// The view of `item`, which must be a `CaseClause` item.
    pub fn new(item: ItemView<'a>) -> (r: Result<Self, ParseError>)
        requires
            item.valid(),
        ensures
            r is Ok <==> item.items@[item.i as int].kind == ItemKind::CaseClause,
            r matches Ok(v) ==> v.0.under(item.items, item.i as int),
    {
        item.expect_kind(ItemKind::CaseClause)?;
        Ok(CaseClauseView(item.children()))
    }

    /// The pattern: the first child.
    pub fn pattern(&self) -> (v: ItemView<'a>)
        requires
            self.0.indices().len() >= 1,
        ensures
            v.items == self.0.items && v.i == self.0.indices()[0] && v.valid(),
    {
        self.0.nth_item(0)
    }

    /// The guard: the children of the second child.
    pub fn guard(&self) -> (c: ItemsView<'a>)
        requires
            self.0.indices().len() >= 2,
        ensures
            c.under(self.0.items, self.0.indices()[1]),
    {
        self.0.nth_children(1)
    }

    /// The body: the children of the third child.
    pub fn body(&self) -> (c: ItemsView<'a>)
        requires
            self.0.indices().len() >= 3,
        ensures
            c.under(self.0.items, self.0.indices()[2]),
    {
        self.0.nth_children(2)
    }
}

/// The parts of a `MaybeExpr` item: the body and the `else` clauses.
#[derive(Debug, Clone)]
pub struct MaybeExprView<'a>(pub ItemsView<'a>);

impl<'a> MaybeExprView<'a> {
    /// The view of `item`, which must be a `MaybeExpr` item.
    pub fn new(item: ItemView<'a>) -> (r: Result<Self, ParseError>)
        requires
            item.valid(),
        ensures
            r is Ok <==> item.items@[item.i as int].kind == ItemKind::MaybeExpr,
            r matches Ok(v) ==> v.0.under(item.items, item.i as int),
    {
        item.expect_kind(ItemKind::MaybeExpr)?;
        Ok(MaybeExprView(item.children()))
    }

    /// The body: the children of the first child.
    pub fn body(&self) -> (c: ItemsView<'a>)
        requires
            self.0.indices().len() >= 1,
        ensures
            c.under(self.0.items, self.0.indices()[0]),
    {
        self.0.nth_children(0)
    }

    /// The `else` clauses: the children of the second child, each an
    /// `ElseClause`.
    pub fn clauses(&self) -> (v: Vec<ElseClauseView<'a>>)
        requires
            self.0.indices().len() >= 2,
            ItemsView::children_run(self.0.items, self.0.indices()[1]).all_kind(ItemKind::ElseClause),
        ensures
            v@.len() == ItemsView::children_run(self.0.items, self.0.indices()[1]).indices().len(),
            forall|k: int| 0 <= k < v@.len() ==> (#[trigger] v@[k]).0.under(self.0.items,
                ItemsView::children_run(self.0.items, self.0.indices()[1]).indices()[k]),
    {
        let c = self.0.nth_children(1);
        let all = c.to_vec();
        proof {
            lemma_chain(c.items@, c.start as int, c.end as int);
        }
        let mut out: Vec<ElseClauseView<'a>> = Vec::new();
        let mut k: usize = 0;
        while k < all.len()
            invariant
                c.all_kind(ItemKind::ElseClause),
                c.items == self.0.items,
                all@.len() == c.indices().len(),
                forall|j: int| 0 <= j < all@.len() ==> (#[trigger] all@[j]).items == c.items && all@[j].i == c.indices()[j],
                forall|j: int| 0 <= j < c.indices().len() ==> #[trigger] c.indices()[j] < c.items@.len(),
                k <= all@.len(),
                out@.len() == k,
                forall|j: int| 0 <= j < k ==> (#[trigger] out@[j]).0.under(c.items, c.indices()[j]),
            decreases all@.len() - k,
        {
            assert(c.items@[c.indices()[k as int]].kind == ItemKind::ElseClause);
            match ElseClauseView::new(all[k]) {
                Ok(v) => out.push(v),
                Err(_) => {
                    assert(false);
                },
            }
            k += 1;
        }
        out
    }
}

/// The parts of an `ElseClause` item: pattern, guard, body.
#[derive(Debug, Clone)]
pub struct ElseClauseView<'a>(pub ItemsView<'a>);

impl<'a> ElseClauseView<'a> {
    /// The view of `item`, which must be an `ElseClause` item.
    pub fn new(item: ItemView<'a>) -> (r: Result<Self, ParseError>)
        requires
            item.valid(),
        ensures
            r is Ok <==> item.items@[item.i as int].kind == ItemKind::ElseClause,
            r matches Ok(v) ==> v.0.under(item.items, item.i as int),
    {
        item.expect_kind(ItemKind::ElseClause)?;
        Ok(ElseClauseView(item.children()))
    }

    /// The pattern: the first child.
    pub fn pattern(&self) -> (v: ItemView<'a>)
        requires
            self.0.indices().len() >= 1,
        ensures
            v.items == self.0.items && v.i == self.0.indices()[0] && v.valid(),
    {
        self.0.nth_item(0)
    }

    /// The guard: the children of the second child.
    pub fn guard(&self) -> (c: ItemsView<'a>)
        requires
            self.0.indices().len() >= 2,
        ensures
            c.under(self.0.items, self.0.indices()[1]),
    {
        self.0.nth_children(1)
    }

    /// The body: the children of the third child.
    pub fn body(&self) -> (c: ItemsView<'a>)
        requires
            self.0.indices().len() >= 3,
        ensures
            c.under(self.0.items, self.0.indices()[2]),
    {
        self.0.nth_children(2)
    }
}

} // verus!
