//! The analyzer: the outline, the foldable regions, the heading hierarchy
//! and the statistics of a document, each built from the walker's queries.

use crate::ast::{ref_views, ASTNode, NodeKind, Tree};
use crate::walker::{has_kind_name, ASTWalker};
use std::collections::HashMap;
use vstd::hash_map::StringHashMap;
use vstd::prelude::*;

verus! {

broadcast use vstd::std_specs::hash::group_hash_axioms;

/// The lines that a heading folds where no later heading closes it.
pub const FALLBACK_SPAN: usize = 100;

/// One entry of the outline.
#[derive(Debug)]
pub struct OutlineItem {
    pub level: u8,
    pub text: String,
    pub line: usize,
    pub children: Vec<OutlineItem>,
}

/// The mathematical model of an outline entry.
pub struct OutlineModel {
    pub level: u8,
    pub text: Seq<char>,
    pub line: usize,
    pub children: Seq<OutlineModel>,
}

impl OutlineItem {
    /// The entry's model, built from the models of its children.
    pub open spec fn model(&self) -> OutlineModel
        decreases self,
    {
        OutlineModel {
            level: self.level,
            text: self.text@,
            line: self.line,
            children: Seq::new(
                self.children@.len(),
                |i: int|
                    if 0 <= i < self.children@.len() {
                        self.children@[i].model()
                    } else {
                        arbitrary()
                    },
            ),
        }
    }

    /// An entry without children.
    pub fn new(level: u8, text: String, line: usize) -> (item: Self)
        ensures
            item@ == (OutlineModel { level, text: text@, line, children: Seq::empty() }),
    {
        let item = OutlineItem { level, text, line, children: Vec::new() };
        assert(item@.children =~= Seq::empty());
        item
    }
}

impl View for OutlineItem {
    type V = OutlineModel;

    open spec fn view(&self) -> OutlineModel {
        self.model()
    }
}

/// The models of a sequence of outline entries, one for one.
pub open spec fn outline_views(items: Seq<OutlineItem>) -> Seq<OutlineModel> {
    Seq::new(items.len(), |i: int| items[i]@)
}

fn clone_outline(items: &Vec<OutlineItem>) -> (out: Vec<OutlineItem>)
    ensures
        outline_views(out@) == outline_views(items@),
    decreases items,
{
    let mut out: Vec<OutlineItem> = Vec::new();
    let mut i: usize = 0;
    while i < items.len()
        invariant
            i <= items.len(),
            out.len() == i,
            forall|j: int| 0 <= j < i ==> out@[j]@ == items@[j]@,
        decreases items.len() - i,
    {
        let copy = items[i].clone();
        out.push(copy);
        i += 1;
    }
    out
}

impl Clone for OutlineItem {
    fn clone(&self) -> (copy: Self)
        ensures
            copy@ == self@,
        decreases self,
    {
        let copy = OutlineItem {
            level: self.level,
            text: self.text.clone(),
            line: self.line,
            children: clone_outline(&self.children),
        };
        assert(copy@.children =~= outline_views(copy.children@));
        assert(self@.children =~= outline_views(self.children@));
        copy
    }
}

/// A range of lines that an editor may fold.
#[derive(Debug)]
pub struct FoldableRegion {
    pub start_line: usize,
    pub end_line: usize,
    pub region_type: String,
    pub level: u8,
}

/// The mathematical model of a foldable region.
pub struct RegionModel {
    pub start_line: usize,
    pub end_line: usize,
    pub region_type: Seq<char>,
    pub level: u8,
}

impl View for FoldableRegion {
    type V = RegionModel;

    open spec fn view(&self) -> RegionModel {
        RegionModel {
            start_line: self.start_line,
            end_line: self.end_line,
            region_type: self.region_type@,
            level: self.level,
        }
    }
}

impl FoldableRegion {
    /// A region of the given lines, kind and level.
    pub fn new(start_line: usize, end_line: usize, region_type: String, level: u8) -> (region:
        Self)
        ensures
            region@ == (RegionModel { start_line, end_line, region_type: region_type@, level }),
    {
        FoldableRegion { start_line, end_line, region_type, level }
    }
}

impl Clone for FoldableRegion {
    fn clone(&self) -> (copy: Self)
        ensures
            copy@ == self@,
    {
        FoldableRegion {
            start_line: self.start_line,
            end_line: self.end_line,
            region_type: self.region_type.clone(),
            level: self.level,
        }
    }
}

/// The models of a sequence of regions, one for one.
pub open spec fn region_views(regions: Seq<FoldableRegion>) -> Seq<RegionModel> {
    Seq::new(regions.len(), |i: int| regions[i]@)
}

/// What `f` gives for the indices below `n`, in order, leaving out the
/// indices for which it gives nothing.
pub open spec fn gather<B>(n: nat, f: spec_fn(int) -> Option<B>) -> Seq<B>
    decreases n,
{
    if n == 0 {
        Seq::empty()
    } else {
        match f(n - 1) {
            Some(b) => gather((n - 1) as nat, f).push(b),
            None => gather((n - 1) as nat, f),
        }
    }
}

/// The headings of a tree in document order.
pub open spec fn headings_of(tree: Tree) -> Seq<Tree> {
    tree.preorder().filter(has_kind_name(NodeKind::Heading.name()))
}

/// The code blocks of a tree in document order.
pub open spec fn code_blocks_of(tree: Tree) -> Seq<Tree> {
    tree.preorder().filter(has_kind_name(NodeKind::CodeBlock.name()))
}

/// The lists of a tree in document order.
pub open spec fn lists_of(tree: Tree) -> Seq<Tree> {
    tree.preorder().filter(has_kind_name(NodeKind::List.name()))
}

/// The paragraphs of a tree in document order.
pub open spec fn paragraphs_of(tree: Tree) -> Seq<Tree> {
    tree.preorder().filter(has_kind_name(NodeKind::Paragraph.name()))
}

/// The outline entry of a heading: its level, its text and the line it
/// starts on, which counts as zero where the heading has no start.
pub open spec fn outline_entry(node: Tree) -> Option<OutlineModel> {
    match node {
        Tree::Heading { level, text, start_pos, .. } => Some(
            OutlineModel {
                level,
                text,
                line: match start_pos {
                    Some(p) => p.line,
                    None => 0,
                },
                children: Seq::empty(),
            },
        ),
        _ => None,
    }
}

/// The outline entry of the node at each index.
pub open spec fn outline_entry_at(nodes: Seq<Tree>) -> spec_fn(int) -> Option<OutlineModel> {
    |i: int| outline_entry(nodes[i])
}

/// The outline of a tree: one entry for each heading, in document order.
pub open spec fn outline_of(tree: Tree) -> Seq<OutlineModel> {
    gather(headings_of(tree).len(), outline_entry_at(headings_of(tree)))
}

/// Whether `node` is a placed heading that closes a heading of level
/// `level`: one of the same level or a higher rank.
pub open spec fn closes(node: Tree, level: u8) -> bool {
    node matches Tree::Heading { level: other, start_pos: Some(_), .. } && other <= level
}

/// The index of the first node from `j` on that closes a heading of level
/// `level`.
pub open spec fn closing_heading(nodes: Seq<Tree>, level: u8, j: int) -> Option<int>
    decreases nodes.len() - j,
{
    if j < 0 || j >= nodes.len() {
        None
    } else if closes(nodes[j], level) {
        Some(j)
    } else {
        closing_heading(nodes, level, j + 1)
    }
}

/// The line before `line`. Line zero has no line before it and stands for
/// itself.
pub open spec fn line_before(line: usize) -> usize {
    if line >= 1 {
        (line - 1) as usize
    } else {
        0
    }
}

/// The line a fixed span below `line`, as far as lines can be counted.
pub open spec fn line_below(line: usize) -> usize {
    if line + FALLBACK_SPAN > usize::MAX {
        usize::MAX
    } else {
        (line + FALLBACK_SPAN) as usize
    }
}

/// The last line of the region of the `i`-th node, a heading of level
/// `level` that starts on `start_line`: the line before the heading that
/// closes it, or the line a fixed span below its own where none closes it.
pub open spec fn heading_end_line(nodes: Seq<Tree>, level: u8, i: int, start_line: usize) -> usize {
    match closing_heading(nodes, level, i + 1) {
        Some(j) => line_before(nodes[j].start_pos()->0.line),
        None => line_below(start_line),
    }
}

/// The region of the `i`-th node, where it is a heading with a start: from
/// its own line to the last line of its region. Every such heading has one.
/// A closing heading that does not stand below the heading makes a region
/// that ends above its start; in a parsed document every block behind a
/// heading stands below it.
pub open spec fn heading_region(nodes: Seq<Tree>, i: int) -> Option<RegionModel> {
    match nodes[i] {
        Tree::Heading { level, start_pos: Some(start), .. } => Some(
            RegionModel {
                start_line: start.line,
                end_line: heading_end_line(nodes, level, i, start.line),
                region_type: "heading"@,
                level,
            },
        ),
        _ => None,
    }
}

/// The heading region of the node at each index.
pub open spec fn heading_region_at(nodes: Seq<Tree>) -> spec_fn(int) -> Option<RegionModel> {
    |i: int| heading_region(nodes, i)
}

/// The region that a node spans, where it has both positions; with
/// `several` set, only where it has more than one child.
pub open spec fn span_region(node: Tree, name: Seq<char>, several: bool) -> Option<RegionModel> {
    match (node.start_pos(), node.end_pos()) {
        (Some(start), Some(end)) => if !several || node.children().len() > 1 {
            Some(
                RegionModel {
                    start_line: start.line,
                    end_line: end.line,
                    region_type: name,
                    level: 0,
                },
            )
        } else {
            None
        },
        _ => None,
    }
}

/// The spanned region of the node at each index.
pub open spec fn span_region_at(nodes: Seq<Tree>, name: Seq<char>, several: bool) -> spec_fn(
    int,
) -> Option<RegionModel> {
    |i: int| span_region(nodes[i], name, several)
}

/// `sorted` with `region` put in behind the last region that does not start
/// after it.
pub open spec fn insert_by_start(sorted: Seq<RegionModel>, region: RegionModel) -> Seq<
    RegionModel,
>
    decreases sorted.len(),
{
    if sorted.len() == 0 || sorted.last().start_line <= region.start_line {
        sorted.push(region)
    } else {
        insert_by_start(sorted.drop_last(), region).push(sorted.last())
    }
}

/// The regions in the order of their start lines; regions that start on the
/// same line keep the order they came in.
pub open spec fn sort_by_start(regions: Seq<RegionModel>) -> Seq<RegionModel>
    decreases regions.len(),
{
    if regions.len() == 0 {
        Seq::empty()
    } else {
        insert_by_start(sort_by_start(regions.drop_last()), regions.last())
    }
}

/// No region starts before the one in front of it.
pub open spec fn sorted_by_start(regions: Seq<RegionModel>) -> bool {
    forall|i: int, j: int|
        0 <= i <= j < regions.len() ==> regions[i].start_line <= regions[j].start_line
}

/// The regions of a tree before they are put in order: those of the
/// headings, then those of the code blocks, then those of the lists with
/// more than one item.
pub open spec fn unsorted_regions_of(tree: Tree) -> Seq<RegionModel> {
    gather(headings_of(tree).len(), heading_region_at(headings_of(tree))) + gather(
        code_blocks_of(tree).len(),
        span_region_at(code_blocks_of(tree), "code_block"@, false),
    ) + gather(lists_of(tree).len(), span_region_at(lists_of(tree), "list"@, true))
}

/// The foldable regions of a tree, in the order of their start lines.
pub open spec fn foldable_regions_of(tree: Tree) -> Seq<RegionModel> {
    sort_by_start(unsorted_regions_of(tree))
}

/// The level of a heading; none for any other node.
pub open spec fn level_of(node: Tree) -> Option<u8> {
    match node {
        Tree::Heading { level, .. } => Some(level),
        _ => None,
    }
}

/// Whether the `j`-th node is a child of the `i`-th in the hierarchy of
/// headings: a later heading exactly one level down, with no heading of the
/// `i`-th one's level or of a higher rank between them.
pub open spec fn is_child_heading(nodes: Seq<Tree>, i: int, j: int) -> bool {
    &&& 0 <= i < j < nodes.len()
    &&& level_of(nodes[i]) is Some
    &&& level_of(nodes[j]) is Some
    &&& level_of(nodes[j])->0 == level_of(nodes[i])->0 + 1
    &&& forall|k: int|
        i < k < j ==> !(level_of(#[trigger] nodes[k]) is Some && level_of(nodes[k])->0 <= level_of(
            nodes[i],
        )->0)
}

/// The indices from `j` on of the children of a heading of level `level`,
/// as far as the first heading that closes the scan.
pub open spec fn child_indices_from(nodes: Seq<Tree>, level: u8, j: int) -> Seq<usize>
    decreases nodes.len() - j,
{
    if j < 0 || j >= nodes.len() {
        Seq::empty()
    } else {
        match level_of(nodes[j]) {
            Some(other) => if other == level + 1 {
                seq![j as usize] + child_indices_from(nodes, level, j + 1)
            } else if other <= level {
                Seq::empty()
            } else {
                child_indices_from(nodes, level, j + 1)
            },
            None => child_indices_from(nodes, level, j + 1),
        }
    }
}

/// The indices of the children of the `i`-th node in the hierarchy of
/// headings.
pub open spec fn child_indices(nodes: Seq<Tree>, i: int) -> Seq<usize> {
    match level_of(nodes[i]) {
        Some(level) => child_indices_from(nodes, level, i + 1),
        None => Seq::empty(),
    }
}

/// Whether `hierarchy` is the hierarchy of the headings `nodes`: it has an
/// entry for the index of each heading, which holds the indices of the
/// heading's children.
pub open spec fn is_hierarchy_of(hierarchy: Map<usize, Vec<usize>>, nodes: Seq<Tree>) -> bool {
    &&& forall|i: usize|
        hierarchy.contains_key(i) <==> (i < nodes.len() && level_of(nodes[i as int]) is Some)
    &&& forall|i: usize|
        hierarchy.contains_key(i) ==> (#[trigger] hierarchy[i])@ == child_indices(nodes, i as int)
}

/// The greatest level among the first `n` nodes; zero where none of them is
/// a heading.
pub open spec fn max_level(nodes: Seq<Tree>, n: nat) -> nat
    decreases n,
{
    if n == 0 {
        0
    } else {
        let rest = max_level(nodes, (n - 1) as nat);
        match level_of(nodes[n - 1]) {
            Some(level) => if level > rest {
                level as nat
            } else {
                rest
            },
            None => rest,
        }
    }
}

/// The statistics of a tree: how many headings, paragraphs, code blocks and
/// lists it has, and the greatest level of its headings.
pub open spec fn statistics_of(tree: Tree) -> Map<Seq<char>, usize> {
    Map::<Seq<char>, usize>::empty().insert(
        "headings"@,
        headings_of(tree).len() as usize,
    ).insert("paragraphs"@, paragraphs_of(tree).len() as usize).insert(
        "code_blocks"@,
        code_blocks_of(tree).len() as usize,
    ).insert("lists"@, lists_of(tree).len() as usize).insert(
        "max_heading_level"@,
        max_level(headings_of(tree), headings_of(tree).len()) as usize,
    )
}

/// An analyzer of one document. It works out its results when one of them is
/// first asked for, and keeps them.
pub struct DocumentAnalyzer<'a> {
    ast: &'a ASTNode,
    analyzed: bool,
    outline: Vec<OutlineItem>,
    foldable_regions: Vec<FoldableRegion>,
    heading_hierarchy: HashMap<usize, Vec<usize>>,
    stats: StringHashMap<usize>,
}

impl<'a> DocumentAnalyzer<'a> {
    /// The document that the analyzer looks at.
    pub closed spec fn tree(&self) -> Tree {
        self.ast@
    }

    /// Whether the results have been worked out.
    pub closed spec fn is_analyzed(&self) -> bool {
        self.analyzed
    }

    /// The outline that the analyzer keeps.
    pub closed spec fn kept_outline(&self) -> Seq<OutlineModel> {
        outline_views(self.outline@)
    }

    /// The foldable regions that the analyzer keeps.
    pub closed spec fn kept_regions(&self) -> Seq<RegionModel> {
        region_views(self.foldable_regions@)
    }

    /// The hierarchy of headings that the analyzer keeps.
    pub closed spec fn kept_hierarchy(&self) -> Map<usize, Vec<usize>> {
        self.heading_hierarchy@
    }

    /// The statistics that the analyzer keeps.
    pub closed spec fn kept_statistics(&self) -> Map<Seq<char>, usize> {
        self.stats@
    }

    /// The analyzer keeps the results of its document.
    pub open spec fn holds_results(&self) -> bool {
        &&& self.is_analyzed()
        &&& self.kept_outline() == outline_of(self.tree())
        &&& self.kept_regions() == foldable_regions_of(self.tree())
        &&& is_hierarchy_of(self.kept_hierarchy(), headings_of(self.tree()))
        &&& self.kept_statistics() == statistics_of(self.tree())
    }

    #[verifier::type_invariant]
    closed spec fn wf(&self) -> bool {
        self.analyzed ==> {
            &&& outline_views(self.outline@) == outline_of(self.ast@)
            &&& region_views(self.foldable_regions@) == foldable_regions_of(self.ast@)
            &&& is_hierarchy_of(self.heading_hierarchy@, headings_of(self.ast@))
            &&& self.stats@ == statistics_of(self.ast@)
        }
    }

    /// An analyzer of the document that has not worked out anything yet.
    pub fn new(ast: &'a ASTNode) -> (analyzer: Self)
        ensures
            analyzer.tree() == ast@,
            !analyzer.is_analyzed(),
    {
        DocumentAnalyzer {
            ast,
            analyzed: false,
            outline: Vec::new(),
            foldable_regions: Vec::new(),
            heading_hierarchy: HashMap::new(),
            stats: StringHashMap::new(),
        }
    }

    /// Works out all four results anew and keeps them.
    pub fn analyze(&mut self)
        ensures
            final(self).tree() == old(self).tree(),
            final(self).holds_results(),
    {
        let outline = self.build_outline();
        let regions = self.find_foldable_regions();
        let hierarchy = self.build_heading_hierarchy();
        let stats = self.calculate_statistics();
        self.analyzed = false;
        self.outline = outline;
        self.foldable_regions = regions;
        self.heading_hierarchy = hierarchy;
        self.stats = stats;
        self.analyzed = true;
    }

    /// The outline: one entry for each heading, in document order.
    fn build_outline(&self) -> (items: Vec<OutlineItem>)
        ensures
            outline_views(items@) == outline_of(self.tree()),
    {
        let mut walker = ASTWalker::new(self.ast);
        let headings = walker.find_all_headings();
        let ghost models = ref_views(headings@);
        let mut items: Vec<OutlineItem> = Vec::new();
        let mut i: usize = 0;
        while i < headings.len()
            invariant
                i <= headings.len(),
                models == ref_views(headings@),
                outline_views(items@) == gather(i as nat, outline_entry_at(models)),
            decreases headings.len() - i,
        {
            match headings[i] {
                ASTNode::Heading { level, text, start_pos, .. } => {
                    let line = match start_pos {
                        Some(p) => p.line,
                        None => 0,
                    };
                    let item = OutlineItem::new(*level, text.clone(), line);
                    items.push(item);
                },
                _ => {},
            }
            i += 1;
        }
        items
    }

    /// The regions of the headings, in document order.
    fn heading_regions(headings: &Vec<&'a ASTNode>, regions: &mut Vec<FoldableRegion>)
        ensures
            region_views(final(regions)@) == region_views(old(regions)@) + gather(
                headings@.len(),
                heading_region_at(ref_views(headings@)),
            ),
    {
        let ghost models = ref_views(headings@);
        let ghost before = region_views(regions@);
        let mut i: usize = 0;
        while i < headings.len()
            invariant
                i <= headings.len(),
                models == ref_views(headings@),
                region_views(regions@) == before + gather(i as nat, heading_region_at(models)),
            decreases headings.len() - i,
        {
            let ghost so_far = region_views(regions@);
            match headings[i] {
                ASTNode::Heading { level, start_pos: Some(start), .. } => {
                    let start_line = start.line;
                    let mut closing: Option<usize> = None;
                    let mut j: usize = i + 1;
                    while j < headings.len()
                        invariant_except_break
                            closing is None,
                            closing_heading(models, *level, i + 1) == closing_heading(
                                models,
                                *level,
                                j as int,
                            ),
                        invariant
                            i < j <= headings.len(),
                            models == ref_views(headings@),
                        ensures
                            match closing {
                                Some(line) => closing_heading(models, *level, i + 1) is Some
                                    && models[closing_heading(
                                    models,
                                    *level,
                                    i + 1,
                                )->0].start_pos()->0.line == line,
                                None => closing_heading(models, *level, i + 1) is None,
                            },
                        decreases headings.len() - j,
                    {
                        match headings[j] {
                            ASTNode::Heading {
                                level: next_level,
                                start_pos: Some(next_start),
                                ..
                            } => {
                                if *next_level <= *level {
                                    closing = Some(next_start.line);
                                    break ;
                                }
                            },
                            _ => {},
                        }
                        j += 1;
                    }
                    let end_line: usize = match closing {
                        Some(line) => if line > 0 {
                            line - 1
                        } else {
                            0
                        },
                        None => start_line.saturating_add(FALLBACK_SPAN),
                    };
                    let region = FoldableRegion::new(
                        start_line,
                        end_line,
                        "heading".to_owned(),
                        *level,
                    );
                    regions.push(region);
                    assert(region_views(regions@) =~= so_far.push(region@));
                },
                _ => {},
            }
            i += 1;
        }
    }

    /// The regions that the nodes span, in document order.
    fn span_regions(
        nodes: &Vec<&'a ASTNode>,
        name: &str,
        several: bool,
        regions: &mut Vec<FoldableRegion>,
    )
        ensures
            region_views(final(regions)@) == region_views(old(regions)@) + gather(
                nodes@.len(),
                span_region_at(ref_views(nodes@), name@, several),
            ),
    {
        let ghost models = ref_views(nodes@);
        let ghost before = region_views(regions@);
        let ghost f = span_region_at(models, name@, several);
        let mut i: usize = 0;
        while i < nodes.len()
            invariant
                i <= nodes.len(),
                models == ref_views(nodes@),
                f == span_region_at(models, name@, several),
                region_views(regions@) == before + gather(i as nat, f),
            decreases nodes.len() - i,
        {
            let ghost so_far = region_views(regions@);
            let node = nodes[i];
            match (node.start_pos(), node.end_pos()) {
                (Some(start), Some(end)) => {
                    if !several || node.children().len() > 1 {
                        let region = FoldableRegion::new(start.line, end.line, name.to_owned(), 0);
                        regions.push(region);
                        assert(region_views(regions@) =~= so_far.push(region@));
                    }
                },
                _ => {},
            }
            i += 1;
        }
    }

    /// The foldable regions, in the order of their start lines.
    fn find_foldable_regions(&self) -> (regions: Vec<FoldableRegion>)
        ensures
            region_views(regions@) == foldable_regions_of(self.tree()),
    {
        let mut regions: Vec<FoldableRegion> = Vec::new();
        let mut walker = ASTWalker::new(self.ast);

        let headings = walker.find_all_headings();
        Self::heading_regions(&headings, &mut regions);

        walker.reset_counter();
        let code_blocks = walker.find_all_code_blocks();
        Self::span_regions(&code_blocks, "code_block", false, &mut regions);

        walker.reset_counter();
        let lists = walker.find_all_lists();
        Self::span_regions(&lists, "list", true, &mut regions);

        sort_regions(&mut regions);
        regions
    }

    /// The hierarchy of the headings: for the index of each heading, the
    /// indices of its children.
    fn build_heading_hierarchy(&self) -> (hierarchy: HashMap<usize, Vec<usize>>)
        ensures
            is_hierarchy_of(hierarchy@, headings_of(self.tree())),
    {
        let mut walker = ASTWalker::new(self.ast);
        let headings = walker.find_all_headings();
        let ghost models = ref_views(headings@);
        let mut hierarchy: HashMap<usize, Vec<usize>> = HashMap::new();
        let mut i: usize = 0;
        while i < headings.len()
            invariant
                i <= headings.len(),
                models == ref_views(headings@),
                forall|k: usize|
                    hierarchy@.contains_key(k) <==> (k < i && level_of(models[k as int]) is Some),
                forall|k: usize|
                    hierarchy@.contains_key(k) ==> (#[trigger] hierarchy@[k])@ == child_indices(
                        models,
                        k as int,
                    ),
            decreases headings.len() - i,
        {
            match headings[i] {
                ASTNode::Heading { level, .. } => {
                    let mut children: Vec<usize> = Vec::new();
                    let mut j: usize = i + 1;
                    while j < headings.len()
                        invariant
                            i < j <= headings.len(),
                            models == ref_views(headings@),
                            children@ + child_indices_from(models, *level, j as int)
                                == child_indices_from(models, *level, i + 1),
                        ensures
                            children@ == child_indices_from(models, *level, i + 1),
                        decreases headings.len() - j,
                    {
                        match headings[j] {
                            ASTNode::Heading { level: next_level, .. } => {
                                if *level < u8::MAX && *next_level == *level + 1 {
                                    children.push(j);
                                } else if *next_level <= *level {
                                    break ;
                                }
                            },
                            _ => {},
                        }
                        j += 1;
                    }
                    hierarchy.insert(i, children);
                },
                _ => {},
            }
            i += 1;
        }
        hierarchy
    }

    /// The statistics of the document.
    fn calculate_statistics(&self) -> (stats: StringHashMap<usize>)
        ensures
            stats@ == statistics_of(self.tree()),
    {
        let mut walker = ASTWalker::new(self.ast);
        let mut stats: StringHashMap<usize> = StringHashMap::new();

        stats.insert("headings".to_owned(), walker.count_nodes("heading"));
        walker.reset_counter();
        stats.insert("paragraphs".to_owned(), walker.count_nodes("paragraph"));
        walker.reset_counter();
        stats.insert("code_blocks".to_owned(), walker.count_nodes("code_block"));
        walker.reset_counter();
        stats.insert("lists".to_owned(), walker.count_nodes("list"));

        walker.reset_counter();
        let headings = walker.find_all_headings();
        let ghost models = ref_views(headings@);
        let mut greatest: usize = 0;
        let mut i: usize = 0;
        while i < headings.len()
            invariant
                i <= headings.len(),
                models == ref_views(headings@),
                greatest == max_level(models, i as nat),
            decreases headings.len() - i,
        {
            match headings[i] {
                ASTNode::Heading { level, .. } => {
                    if *level as usize > greatest {
                        greatest = *level as usize;
                    }
                },
                _ => {},
            }
            i += 1;
        }
        stats.insert("max_heading_level".to_owned(), greatest);
        stats
    }

    /// The outline: one entry for each heading, in document order.
    pub fn get_outline(&mut self) -> (outline: &Vec<OutlineItem>)
        ensures
            outline_views(outline@) == outline_of(old(self).tree()),
            final(self).tree() == old(self).tree(),
            final(self).holds_results(),
    {
        if !self.analyzed {
            self.analyze();
        }
        proof {
            use_type_invariant(&*self);
        }
        &self.outline
    }

    /// The foldable regions, in the order of their start lines.
    pub fn get_foldable_regions(&mut self) -> (regions: &Vec<FoldableRegion>)
        ensures
            region_views(regions@) == foldable_regions_of(old(self).tree()),
            final(self).tree() == old(self).tree(),
            final(self).holds_results(),
    {
        if !self.analyzed {
            self.analyze();
        }
        proof {
            use_type_invariant(&*self);
        }
        &self.foldable_regions
    }

    /// The statistics: the numbers of headings, paragraphs, code blocks and
    /// lists, and the greatest level of a heading.
    pub fn get_statistics(&mut self) -> (stats: &StringHashMap<usize>)
        ensures
            stats@ == statistics_of(old(self).tree()),
            final(self).tree() == old(self).tree(),
            final(self).holds_results(),
    {
        if !self.analyzed {
            self.analyze();
        }
        proof {
            use_type_invariant(&*self);
        }
        &self.stats
    }

    /// The hierarchy of the headings: for the index of each heading in
    /// document order, the indices of its children.
    pub fn get_heading_hierarchy(&mut self) -> (hierarchy: &HashMap<usize, Vec<usize>>)
        ensures
            is_hierarchy_of(hierarchy@, headings_of(old(self).tree())),
            final(self).tree() == old(self).tree(),
            final(self).holds_results(),
    {
        if !self.analyzed {
            self.analyze();
        }
        proof {
            use_type_invariant(&*self);
        }
        &self.heading_hierarchy
    }
}

/// Where `region` goes into `sorted`: behind the last region that does not
/// start after it.
proof fn lemma_insert_at(sorted: Seq<RegionModel>, region: RegionModel, at: int)
    requires
        0 <= at <= sorted.len(),
        at == 0 || sorted[at - 1].start_line <= region.start_line,
        forall|k: int| at <= k < sorted.len() ==> sorted[k].start_line > region.start_line,
    ensures
        insert_by_start(sorted, region) == sorted.insert(at, region),
    decreases sorted.len() - at,
{
    if at < sorted.len() {
        lemma_insert_at(sorted.drop_last(), region, at);
    }
}

/// Puts the regions in the order of their start lines; regions that start on
/// the same line keep their order.
fn sort_regions(regions: &mut Vec<FoldableRegion>)
    ensures
        region_views(final(regions)@) == sort_by_start(region_views(old(regions)@)),
{
    let ghost input = region_views(regions@);
    let n = regions.len();
    let mut i: usize = 0;
    while i < n
        invariant
            i <= n == regions.len(),
            input.len() == n,
            region_views(regions@).take(i as int) == sort_by_start(input.take(i as int)),
            region_views(regions@).skip(i as int) == input.skip(i as int),
        decreases n - i,
    {
        let ghost before = region_views(regions@);
        let ghost sorted = before.take(i as int);
        let region = regions.remove(i);
        assert(region@ == input[i as int]) by {
            assert(before.skip(i as int)[0] == input.skip(i as int)[0]);
        }
        let mut at: usize = i;
        while at > 0 && regions[at - 1].start_line > region.start_line
            invariant
                at <= i < n,
                regions.len() == n - 1,
                before.len() == n,
                region_views(regions@) == before.remove(i as int),
                forall|k: int|
                    at <= k < i ==> region_views(regions@)[k].start_line > region.start_line,
            decreases at,
        {
            at -= 1;
        }
        proof {
            assert(before.remove(i as int).take(i as int) =~= sorted);
            lemma_insert_at(sorted, region@, at as int);
            assert(input.take(i + 1).drop_last() =~= input.take(i as int));
        }
        regions.insert(at, region);
        assert forall|k: int| i < k < n implies region_views(regions@)[k] == input[k] by {
            assert(before[k] == before.skip(i as int)[k - i]);
        }
        i += 1;
    }
    assert(input.take(n as int) =~= input);
}

/// Where `region` goes into `sorted`: the number of regions in front of it.
pub open spec fn insert_point(sorted: Seq<RegionModel>, region: RegionModel) -> nat
    decreases sorted.len(),
{
    if sorted.len() == 0 || sorted.last().start_line <= region.start_line {
        sorted.len()
    } else {
        insert_point(sorted.drop_last(), region)
    }
}

/// A region is put in behind the last region that does not start after it:
/// every region behind it starts after it.
pub proof fn lemma_insert_point(sorted: Seq<RegionModel>, region: RegionModel)
    ensures
        ({
            let at = insert_point(sorted, region) as int;
            &&& 0 <= at <= sorted.len()
            &&& at > 0 ==> sorted[at - 1].start_line <= region.start_line
            &&& forall|k: int| at <= k < sorted.len() ==> sorted[k].start_line > region.start_line
            &&& insert_by_start(sorted, region) == sorted.insert(at, region)
        }),
    decreases sorted.len(),
{
    let at = insert_point(sorted, region) as int;
    if !(sorted.len() == 0 || sorted.last().start_line <= region.start_line) {
        let rest = sorted.drop_last();
        lemma_insert_point(rest, region);
        assert forall|k: int| at <= k < sorted.len() implies sorted[k].start_line
            > region.start_line by {
            if k < rest.len() {
                assert(sorted[k] == rest[k]);
            }
        }
    }
}

/// Regions put in order are in order by their start lines, and are the same
/// regions, each as often as before.
pub proof fn lemma_sort_by_start(regions: Seq<RegionModel>)
    ensures
        sorted_by_start(sort_by_start(regions)),
        sort_by_start(regions).to_multiset() == regions.to_multiset(),
        sort_by_start(regions).len() == regions.len(),
    decreases regions.len(),
{
    broadcast use vstd::seq_lib::group_to_multiset_ensures;

    if regions.len() > 0 {
        let rest = regions.drop_last();
        lemma_sort_by_start(rest);
        lemma_insert_point(sort_by_start(rest), regions.last());
        assert(regions =~= rest.push(regions.last()));
    }
}

/// What `f` gives for an index below `n` is among what is gathered.
pub proof fn lemma_gather_contains<B>(n: nat, f: spec_fn(int) -> Option<B>, i: int)
    requires
        0 <= i < n,
        f(i) is Some,
    ensures
        gather(n, f).contains(f(i)->0),
    decreases n,
{
    let rest = gather((n - 1) as nat, f);
    if i < n - 1 {
        lemma_gather_contains((n - 1) as nat, f, i);
        let k = choose|k: int| 0 <= k < rest.len() && rest[k] == f(i)->0;
        assert(gather(n, f)[k] == f(i)->0);
    } else {
        assert(gather(n, f) == rest.push(f(i)->0));
        assert(gather(n, f)[rest.len() as int] == f(i)->0);
    }
}

/// Every heading that has a start has its region among the foldable regions
/// of the tree: from its own line to the last line of its region.
pub proof fn lemma_heading_has_region(tree: Tree, i: int)
    requires
        0 <= i < headings_of(tree).len(),
        headings_of(tree)[i] matches Tree::Heading { start_pos: Some(_), .. },
    ensures
        heading_region(headings_of(tree), i) is Some,
        foldable_regions_of(tree).contains(heading_region(headings_of(tree), i)->0),
{
    let headings = headings_of(tree);
    let region = heading_region(headings, i)->0;
    let of_headings = gather(headings.len(), heading_region_at(headings));
    lemma_gather_contains(headings.len(), heading_region_at(headings), i);
    let k = choose|k: int| 0 <= k < of_headings.len() && of_headings[k] == region;
    let unsorted = unsorted_regions_of(tree);
    assert(unsorted[k] == region);
    assert(unsorted.contains(region));
    lemma_sort_by_start(unsorted);
    unsorted.to_multiset_ensures();
    sort_by_start(unsorted).to_multiset_ensures();
    assert(unsorted.to_multiset().count(region) > 0);
    assert(sort_by_start(unsorted).to_multiset().count(region) > 0);
}

/// The foldable regions of a tree are in order by their start lines.
pub proof fn lemma_regions_sorted(tree: Tree)
    ensures
        sorted_by_start(foldable_regions_of(tree)),
        foldable_regions_of(tree).to_multiset() == unsorted_regions_of(tree).to_multiset(),
{
    lemma_sort_by_start(unsorted_regions_of(tree));
}

/// No node among the first `n` has a level above the greatest, and the
/// greatest is zero or the level of one of them.
pub proof fn lemma_max_level(nodes: Seq<Tree>, n: nat)
    requires
        n <= nodes.len(),
    ensures
        forall|k: int|
            0 <= k < n && level_of(#[trigger] nodes[k]) is Some ==> level_of(nodes[k])->0
                <= max_level(nodes, n),
        max_level(nodes, n) == 0 || exists|k: int|
            0 <= k < n && level_of(#[trigger] nodes[k]) == Some(max_level(nodes, n) as u8),
        max_level(nodes, n) <= u8::MAX,
    decreases n,
{
    if n > 0 {
        lemma_max_level(nodes, (n - 1) as nat);
        let rest = max_level(nodes, (n - 1) as nat);
        if max_level(nodes, n) != 0 && max_level(nodes, n) == rest {
            let k = choose|k: int|
                0 <= k < n - 1 && level_of(#[trigger] nodes[k]) == Some(rest as u8);
            assert(level_of(nodes[k]) == Some(max_level(nodes, n) as u8));
        }
    }
}

/// Whether the `x`-th node is found by the scan for the children of a
/// heading of level `level` that starts at `j`: it is a heading one level
/// down, and no heading of that level or of a higher rank stands in the scan
/// before it.
pub open spec fn reached_child(nodes: Seq<Tree>, level: u8, j: int, x: int) -> bool {
    &&& j <= x < nodes.len()
    &&& level_of(nodes[x]) is Some
    &&& level_of(nodes[x])->0 == level + 1
    &&& forall|k: int|
        j <= k < x ==> !(level_of(#[trigger] nodes[k]) is Some && level_of(nodes[k])->0 <= level)
}

/// The scan for children from `j` on finds, in rising order, just the
/// headings one level down that no heading of the same level or of a higher
/// rank stands in front of.
pub proof fn lemma_child_indices_from(nodes: Seq<Tree>, level: u8, j: int)
    requires
        0 <= j,
        nodes.len() <= usize::MAX,
    ensures
        ({
            let found = child_indices_from(nodes, level, j);
            &&& forall|a: int, b: int| 0 <= a < b < found.len() ==> found[a] < found[b]
            &&& forall|a: int| 0 <= a < found.len() ==> j <= #[trigger] found[a] < nodes.len()
            &&& forall|x: usize| #[trigger]
                found.contains(x) <==> reached_child(nodes, level, j, x as int)
        }),
    decreases nodes.len() - j,
{
    let found = child_indices_from(nodes, level, j);
    if j < nodes.len() {
        lemma_child_indices_from(nodes, level, j + 1);
        let rest = child_indices_from(nodes, level, j + 1);
        if level_of(nodes[j]) is Some && level_of(nodes[j])->0 == level + 1 {
            assert(found[0] == j as usize);
            assert forall|x: usize| #[trigger]
                found.contains(x) <==> reached_child(nodes, level, j, x as int) by {
                if rest.contains(x) {
                    let a = choose|a: int| 0 <= a < rest.len() && rest[a] == x;
                    assert(found[a + 1] == x);
                }
            }
        }
    }
}

/// The children of a heading in the hierarchy are, in rising order, just
/// the later headings one level down that no heading of its own level or of
/// a higher rank parts from it.
pub proof fn lemma_child_indices(nodes: Seq<Tree>, i: int)
    requires
        0 <= i < nodes.len() <= usize::MAX,
    ensures
        forall|a: int, b: int|
            0 <= a < b < child_indices(nodes, i).len() ==> child_indices(nodes, i)[a]
                < child_indices(nodes, i)[b],
        forall|x: usize| #[trigger]
            child_indices(nodes, i).contains(x) <==> is_child_heading(nodes, i, x as int),
{
    if let Some(level) = level_of(nodes[i]) {
        lemma_child_indices_from(nodes, level, i + 1);
    }
}

} // verus!
