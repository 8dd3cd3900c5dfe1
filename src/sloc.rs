//! Physical and logical line counts of a scope, fed node by node by a walk
//! over a syntax tree.
use vstd::prelude::*;

use crate::bytes::is_word;
use crate::lang::LANG;
use vstd::string::StringSliceAdditionalSpecFns;

verus! {

/// A set of distinct row numbers, held in an `FxHashSet`.
#[verifier::external_body]
pub struct LineSet {
    set: fxhash::FxHashSet<usize>,
}

/// The rows that a `LineSet` holds.
pub uninterp spec fn rows_of(s: LineSet) -> Set<usize>;

impl LineSet {
    /// Relies on `Default` for fxhash's `FxHashSet` (a std `HashSet`): it starts empty.
    #[verifier::external_body]
    pub(crate) fn empty() -> (r: LineSet)
        ensures
            rows_of(r) == Set::<usize>::empty(),
    {
        LineSet { set: fxhash::FxHashSet::default() }
    }

    /// Relies on `HashSet::insert` on fxhash's `FxHashSet`: the row is added.
    #[verifier::external_body]
    pub(crate) fn insert(&mut self, row: usize)
        ensures
            rows_of(*final(self)) == rows_of(*old(self)).insert(row),
    {
        self.set.insert(row);
    }

    /// Relies on `HashSet::len` on fxhash's `FxHashSet`: the number of rows held.
    #[verifier::external_body]
    pub(crate) fn len(&self) -> (r: usize)
        ensures
            r == rows_of(*self).len(),
    {
        self.set.len()
    }

    /// Relies on `HashSet::iter` on fxhash's `FxHashSet`: every row held, each once.
    #[verifier::external_body]
    pub(crate) fn rows(&self) -> (r: Vec<usize>)
        ensures
            r@.to_set() == rows_of(*self),
            r@.no_duplicates(),
    {
        self.set.iter().copied().collect()
    }
}

/// The mathematical content of a `Stats`.
pub struct StatsView {
    pub start: usize,
    pub end: usize,
    pub lines: Set<usize>,
}

impl StatsView {
    /// The view of a fresh accumulator.
    pub open spec fn empty() -> StatsView {
        StatsView { start: 0, end: 0, lines: Set::empty() }
    }

    /// A span that fits the inclusive line count in a `usize`, and a finite line set.
    pub open spec fn wf(self) -> bool {
        &&& self.start <= self.end
        &&& self.end - self.start < usize::MAX
        &&& self.lines.finite()
    }

    /// Physical lines: the inclusive row span of the scope.
    pub open spec fn sloc(self) -> int {
        self.end - self.start + 1
    }

    /// Logical lines: the number of distinct rows recorded.
    pub open spec fn lloc(self) -> nat {
        self.lines.len()
    }

    /// `self` after the rows of `other` were added; the span stays.
    pub open spec fn merged(self, other: StatsView) -> StatsView {
        StatsView { lines: self.lines.union(other.lines), ..self }
    }

    /// `self` after one node was visited.
    pub open spec fn visit(self, lang: LANG, node: SyntaxNode, is_func_space: bool) -> StatsView {
        if !has_table(lang) {
            self
        } else {
            let scoped = if is_func_space {
                StatsView { start: node.start_row, end: node.end_row, ..self }
            } else {
                self
            };
            if is_wrapper(lang, node.kind) {
                scoped
            } else {
                StatsView { lines: scoped.lines.insert(node.start_row), ..scoped }
            }
        }
    }

    /// `self` after a sequence of nodes, each with its scope flag, was visited in order.
    pub open spec fn visit_all(self, lang: LANG, nodes: Seq<(SyntaxNode, bool)>) -> StatsView
        decreases nodes.len(),
    {
        if nodes.len() == 0 {
            self
        } else {
            self.visit_all(lang, nodes.drop_last()).visit(
                lang,
                nodes.last().0,
                nodes.last().1,
            )
        }
    }
}

/// Line counts of one scope: its row span and the distinct rows that start
/// a countable construct.
pub struct Stats {
    start: usize,
    end: usize,
    lines: LineSet,
}

impl View for Stats {
    type V = StatsView;

    closed spec fn view(&self) -> StatsView {
        StatsView { start: self.start, end: self.end, lines: rows_of(self.lines) }
    }
}

/// The syntax-node kinds that some language treats as not countable;
/// every other kind is `Other`.
#[derive(Clone, Copy, Debug, PartialEq, Eq, Structural)]
pub enum NodeKind {
    Comment,
    LineComment,
    BlockComment,
    String,
    StringLiteral,
    RawStringLiteral,
    Quote,
    ExpressionStatement,
    Block,
    StatementBlock,
    CompoundStatement,
    LabeledStatement,
    DeclarationList,
    FieldDeclarationList,
    Other,
}

/// The kind of a node named `name` by a grammar.
pub open spec fn kind_of_name(name: Seq<u8>) -> NodeKind {
    if name == "comment".spec_bytes() {
        NodeKind::Comment
    } else if name == "line_comment".spec_bytes() {
        NodeKind::LineComment
    } else if name == "block_comment".spec_bytes() {
        NodeKind::BlockComment
    } else if name == "string".spec_bytes() {
        NodeKind::String
    } else if name == "string_literal".spec_bytes() {
        NodeKind::StringLiteral
    } else if name == "raw_string_literal".spec_bytes() {
        NodeKind::RawStringLiteral
    } else if name == "\"".spec_bytes() {
        NodeKind::Quote
    } else if name == "expression_statement".spec_bytes() {
        NodeKind::ExpressionStatement
    } else if name == "block".spec_bytes() {
        NodeKind::Block
    } else if name == "statement_block".spec_bytes() {
        NodeKind::StatementBlock
    } else if name == "compound_statement".spec_bytes() {
        NodeKind::CompoundStatement
    } else if name == "labeled_statement".spec_bytes() {
        NodeKind::LabeledStatement
    } else if name == "declaration_list".spec_bytes() {
        NodeKind::DeclarationList
    } else if name == "field_declaration_list".spec_bytes() {
        NodeKind::FieldDeclarationList
    } else {
        NodeKind::Other
    }
}

impl NodeKind {
    /// The kind of a node from the name its grammar gives it.
    pub fn from_name(name: &str) -> (r: NodeKind)
        ensures
            r == kind_of_name(name.spec_bytes()),
    {
        let n = name.as_bytes();
        if is_word(n, "comment") {
            NodeKind::Comment
        } else if is_word(n, "line_comment") {
            NodeKind::LineComment
        } else if is_word(n, "block_comment") {
            NodeKind::BlockComment
        } else if is_word(n, "string") {
            NodeKind::String
        } else if is_word(n, "string_literal") {
            NodeKind::StringLiteral
        } else if is_word(n, "raw_string_literal") {
            NodeKind::RawStringLiteral
        } else if is_word(n, "\"") {
            NodeKind::Quote
        } else if is_word(n, "expression_statement") {
            NodeKind::ExpressionStatement
        } else if is_word(n, "block") {
            NodeKind::Block
        } else if is_word(n, "statement_block") {
            NodeKind::StatementBlock
        } else if is_word(n, "compound_statement") {
            NodeKind::CompoundStatement
        } else if is_word(n, "labeled_statement") {
            NodeKind::LabeledStatement
        } else if is_word(n, "declaration_list") {
            NodeKind::DeclarationList
        } else if is_word(n, "field_declaration_list") {
            NodeKind::FieldDeclarationList
        } else {
            NodeKind::Other
        }
    }
}

/// What the metric engine reads of a syntax-tree node.
#[derive(Clone, Copy, Debug, PartialEq, Eq, Structural)]
pub struct SyntaxNode {
    pub kind: NodeKind,
    pub start_row: usize,
    pub end_row: usize,
}

/// Whether `lang` has a classification table; the others record nothing.
pub open spec fn has_table(lang: LANG) -> bool {
    match lang {
        LANG::Python | LANG::Mozjs | LANG::Javascript | LANG::Typescript | LANG::Tsx
        | LANG::Rust | LANG::Cpp => true,
        _ => false,
    }
}

/// Whether nodes of `kind` are not countable in `lang`: comments, strings,
/// quote tokens and the wrappers around statements.
pub open spec fn is_wrapper(lang: LANG, kind: NodeKind) -> bool {
    match lang {
        LANG::Python => matches!(kind, NodeKind::Comment | NodeKind::String | NodeKind::Quote
            | NodeKind::ExpressionStatement | NodeKind::Block),
        LANG::Mozjs | LANG::Javascript | LANG::Typescript | LANG::Tsx => matches!(kind,
            NodeKind::Comment | NodeKind::String | NodeKind::Quote
            | NodeKind::ExpressionStatement | NodeKind::StatementBlock),
        LANG::Rust => matches!(kind, NodeKind::LineComment | NodeKind::BlockComment
            | NodeKind::StringLiteral | NodeKind::RawStringLiteral
            | NodeKind::ExpressionStatement | NodeKind::Block),
        LANG::Cpp => matches!(kind, NodeKind::Comment | NodeKind::RawStringLiteral
            | NodeKind::StringLiteral | NodeKind::ExpressionStatement
            | NodeKind::CompoundStatement | NodeKind::LabeledStatement
            | NodeKind::DeclarationList | NodeKind::FieldDeclarationList),
        _ => false,
    }
}

/// The block wrapper of a language with a table.
pub open spec fn block_kind(lang: LANG) -> NodeKind {
    match lang {
        LANG::Python | LANG::Rust => NodeKind::Block,
        LANG::Cpp => NodeKind::CompoundStatement,
        _ => NodeKind::StatementBlock,
    }
}

/// Whether a node fits the accumulator's span when it opens a scope.
pub open spec fn scope_fits(node: SyntaxNode, is_func_space: bool) -> bool {
    is_func_space ==> node.start_row <= node.end_row && node.end_row - node.start_row < usize::MAX
}

/// Whether every node of a sequence fits when it opens a scope.
pub open spec fn scopes_fit(nodes: Seq<(SyntaxNode, bool)>) -> bool {
    forall|i: int| 0 <= i < nodes.len() ==> #[trigger] scope_fits(nodes[i].0, nodes[i].1)
}

/// Whether `kind` is not countable in `lang`.
pub fn is_wrapper_kind(lang: LANG, kind: NodeKind) -> (r: bool)
    ensures
        r == is_wrapper(lang, kind),
{
    match lang {
        LANG::Python => matches!(kind, NodeKind::Comment | NodeKind::String | NodeKind::Quote
            | NodeKind::ExpressionStatement | NodeKind::Block),
        LANG::Mozjs | LANG::Javascript | LANG::Typescript | LANG::Tsx => matches!(kind,
            NodeKind::Comment | NodeKind::String | NodeKind::Quote
            | NodeKind::ExpressionStatement | NodeKind::StatementBlock),
        LANG::Rust => matches!(kind, NodeKind::LineComment | NodeKind::BlockComment
            | NodeKind::StringLiteral | NodeKind::RawStringLiteral
            | NodeKind::ExpressionStatement | NodeKind::Block),
        LANG::Cpp => matches!(kind, NodeKind::Comment | NodeKind::RawStringLiteral
            | NodeKind::StringLiteral | NodeKind::ExpressionStatement
            | NodeKind::CompoundStatement | NodeKind::LabeledStatement
            | NodeKind::DeclarationList | NodeKind::FieldDeclarationList),
        _ => false,
    }
}

impl Stats {
    /// Whether the accumulator's view is well formed.
    pub open spec fn wf(&self) -> bool {
        self@.wf()
    }

    /// An empty accumulator: no span recorded and no line.
    pub fn new() -> (r: Stats)
        ensures
            r@ == StatsView::empty(),
            r.wf(),
    {
        Stats { start: 0, end: 0, lines: LineSet::empty() }
    }

    /// Adds the logical lines of `other`; the span of `self` stays.
    pub fn merge(&mut self, other: &Stats)
        requires
            old(self).wf(),
            other.wf(),
        ensures
            final(self)@ == old(self)@.merged(other@),
            final(self).wf(),
    {
        let rows = other.lines.rows();
        let ghost first = self@;
        let mut i: usize = 0;
        proof {
            assert(rows@.take(0) =~= Seq::<usize>::empty());
            assert(first.lines.union(Seq::<usize>::empty().to_set()) =~= first.lines);
        }
        while i < rows.len()
            invariant
                i <= rows@.len(),
                self@.start == first.start,
                self@.end == first.end,
                self@.lines == first.lines.union(rows@.take(i as int).to_set()),
                first.wf(),
            decreases rows@.len() - i,
        {
            let ghost before = rows@.take(i as int).to_set();
            self.lines.insert(rows[i]);
            i = i + 1;
            proof {
                assert(rows@.take(i as int) =~= rows@.take((i - 1) as int).push(rows@[i - 1]));
                rows@.take((i - 1) as int).lemma_push_to_set_commute(rows@[i - 1]);
                assert(first.lines.union(before).insert(rows@[i - 1]) =~= first.lines.union(
                    before.insert(rows@[i - 1]),
                ));
            }
        }
        proof {
            assert(rows@.take(rows@.len() as int) =~= rows@);
            assert(first.lines.union(other@.lines).finite());
        }
    }

    /// Physical lines of the recorded scope: `end - start + 1`.
    pub fn sloc(&self) -> (r: usize)
        requires
            self.wf(),
        ensures
            r == self@.sloc(),
            r >= 1,
    {
        self.end - self.start + 1
    }

    /// Logical lines: the number of distinct rows recorded.
    pub fn lloc(&self) -> (r: usize)
        ensures
            r == self@.lloc(),
    {
        self.lines.len()
    }
}

/// Records the span of `node` in `stats` when it opens a scope, and returns
/// its start row.
fn init(node: &SyntaxNode, stats: &mut Stats, is_func_space: bool) -> (r: usize)
    requires
        old(stats).wf(),
        scope_fits(*node, is_func_space),
    ensures
        r == node.start_row,
        final(stats)@ == (if is_func_space {
            StatsView { start: node.start_row, end: node.end_row, ..old(stats)@ }
        } else {
            old(stats)@
        }),
        final(stats).wf(),
{
    let start = node.start_row;
    if is_func_space {
        stats.start = start;
        stats.end = node.end_row;
    }
    start
}

/// Visits one node of a tree written in `lang`: a node that opens a scope
/// sets the span, and a countable node records its start row. A language
/// without a table leaves `stats` alone.
pub fn compute(lang: LANG, node: &SyntaxNode, stats: &mut Stats, is_func_space: bool)
    requires
        old(stats).wf(),
        scope_fits(*node, is_func_space),
    ensures
        final(stats)@ == old(stats)@.visit(lang, *node, is_func_space),
        final(stats).wf(),
{
    match lang {
        LANG::Python | LANG::Mozjs | LANG::Javascript | LANG::Typescript | LANG::Tsx
        | LANG::Rust | LANG::Cpp => {
            let start = init(node, stats, is_func_space);
            if !is_wrapper_kind(lang, node.kind) {
                stats.lines.insert(start);
            }
        },
        _ => {},
    }
}

/// Merging an accumulator into itself leaves its logical line count as it was.
pub proof fn lemma_merge_self_keeps_lloc(a: StatsView)
    ensures
        a.merged(a).lloc() == a.lloc(),
{
    assert(a.lines.union(a.lines) =~= a.lines);
}

/// Merging any accumulator into a well-formed one never lowers its logical
/// line count.
pub proof fn lemma_merge_never_lowers_lloc(a: StatsView, b: StatsView)
    requires
        a.wf(),
        b.wf(),
    ensures
        a.merged(b).lloc() >= a.lloc(),
        a.merged(b).wf(),
{
    vstd::set_lib::lemma_len_subset(a.lines, a.lines.union(b.lines));
}

/// In a language with a table, a tree made of a block wrapper holding one
/// countable statement records exactly one logical line: the statement's.
pub proof fn lemma_block_counts_statement_only(
    lang: LANG,
    block: SyntaxNode,
    statement: SyntaxNode,
)
    requires
        has_table(lang),
        block.kind == block_kind(lang),
        !is_wrapper(lang, statement.kind),
    ensures
        StatsView::empty().visit_all(lang, seq![(block, false), (statement, false)]).lines
            == set![statement.start_row],
        StatsView::empty().visit_all(lang, seq![(block, false), (statement, false)]).lloc()
            == 1,
{
    let nodes = seq![(block, false), (statement, false)];
    assert(nodes.drop_last() =~= seq![(block, false)]);
    assert(nodes.drop_last().drop_last() =~= Seq::<(SyntaxNode, bool)>::empty());
    let e = StatsView::empty();
    assert(e.visit_all(lang, nodes.drop_last().drop_last()) == e);
    assert(e.visit_all(lang, nodes.drop_last()) == e.visit(lang, block, false));
    assert(e.visit(lang, block, false) == e);
    let v = e.visit_all(lang, nodes);
    assert(v == e.visit(lang, statement, false));
    assert(v.lines =~= set![statement.start_row]);
    assert(set![statement.start_row].len() == 1) by {
        assert(set![statement.start_row] =~= Set::<usize>::empty().insert(statement.start_row));
    }
}

/// In a language with a table, visiting a node that opens a scope from row
/// `s` to row `e` sets the physical line count to `e - s + 1`, at least one.
pub proof fn lemma_scope_sets_sloc(a: StatsView, lang: LANG, node: SyntaxNode)
    requires
        has_table(lang),
        scope_fits(node, true),
    ensures
        a.visit(lang, node, true).sloc() == node.end_row - node.start_row + 1,
        a.visit(lang, node, true).sloc() >= 1,
{
}

/// A language without a table records nothing, whatever the nodes: an
/// accumulator that starts empty keeps a logical line count of zero.
pub proof fn lemma_no_table_records_nothing(lang: LANG, nodes: Seq<(SyntaxNode, bool)>)
    requires
        !has_table(lang),
    ensures
        StatsView::empty().visit_all(lang, nodes) == StatsView::empty(),
        StatsView::empty().visit_all(lang, nodes).lloc() == 0,
    decreases nodes.len(),
{
    if nodes.len() > 0 {
        lemma_no_table_records_nothing(lang, nodes.drop_last());
    }
}

impl Stats {
    /// Visits the nodes of a walk in order, each with its scope flag.
    pub fn compute_all(&mut self, lang: LANG, nodes: &Vec<(SyntaxNode, bool)>)
        requires
            old(self).wf(),
            scopes_fit(nodes@),
        ensures
            final(self)@ == old(self)@.visit_all(lang, nodes@),
            final(self).wf(),
    {
        let ghost first = self@;
        let mut i: usize = 0;
        while i < nodes.len()
            invariant
                i <= nodes@.len(),
                scopes_fit(nodes@),
                self.wf(),
                self@ == first.visit_all(lang, nodes@.take(i as int)),
            decreases nodes@.len() - i,
        {
            let (node, is_func_space) = nodes[i];
            assert(scope_fits(nodes@[i as int].0, nodes@[i as int].1));
            compute(lang, &node, self, is_func_space);
            i = i + 1;
            assert(nodes@.take(i as int).drop_last() =~= nodes@.take((i - 1) as int));
        }
        assert(nodes@.take(nodes@.len() as int) =~= nodes@);
    }
}

impl Default for Stats {
    fn default() -> (r: Stats)
        ensures
            r@ == StatsView::empty(),
            r.wf(),
    {
        Stats::new()
    }
}

} // verus!
