//! The plain data records of the writing aid: world objects and their
//! links, the chapter-structure tree, foreshadowing entries, and the
//! legacy flat character and chapter records, together with the tree
//! helpers that the panels use.

use vstd::prelude::*;

verus! {

/// The category of a world object.
#[derive(Debug, Clone, PartialEq, Eq, Structural)]
pub enum ObjectKind {
    Character,
    Scene,
    Location,
    Item,
    Faction,
    Other,
}

impl ObjectKind {
    /// The display label of this kind.
    pub open spec fn label_spec(self) -> Seq<char> {
        match self {
            ObjectKind::Character => "人物"@,
            ObjectKind::Scene => "场景"@,
            ObjectKind::Location => "地点"@,
            ObjectKind::Item => "道具"@,
            ObjectKind::Faction => "势力"@,
            ObjectKind::Other => "其他"@,
        }
    }

    pub fn label(&self) -> (r: &'static str)
        ensures
            r@ == self.label_spec(),
    {
        match self {
            ObjectKind::Character => "人物",
            ObjectKind::Scene => "场景",
            ObjectKind::Location => "地点",
            ObjectKind::Item => "道具",
            ObjectKind::Faction => "势力",
            ObjectKind::Other => "其他",
        }
    }

    /// The display icon of this kind.
    pub open spec fn icon_spec(self) -> Seq<char> {
        match self {
            ObjectKind::Character => "👤"@,
            ObjectKind::Scene => "🎭"@,
            ObjectKind::Location => "📍"@,
            ObjectKind::Item => "🗡"@,
            ObjectKind::Faction => "🏰"@,
            ObjectKind::Other => "⬡"@,
        }
    }

    pub fn icon(&self) -> (r: &'static str)
        ensures
            r@ == self.icon_spec(),
    {
        match self {
            ObjectKind::Character => "👤",
            ObjectKind::Scene => "🎭",
            ObjectKind::Location => "📍",
            ObjectKind::Item => "🗡",
            ObjectKind::Faction => "🏰",
            ObjectKind::Other => "⬡",
        }
    }

    /// Every kind, in display order.
    pub fn all() -> (r: Vec<ObjectKind>)
        ensures
            r@ == seq![
                ObjectKind::Character,
                ObjectKind::Scene,
                ObjectKind::Location,
                ObjectKind::Item,
                ObjectKind::Faction,
                ObjectKind::Other,
            ],
    {
        let mut v: Vec<ObjectKind> = Vec::new();
        v.push(ObjectKind::Character);
        v.push(ObjectKind::Scene);
        v.push(ObjectKind::Location);
        v.push(ObjectKind::Item);
        v.push(ObjectKind::Faction);
        v.push(ObjectKind::Other);
        proof {
            assert(v@ =~= seq![
                ObjectKind::Character,
                ObjectKind::Scene,
                ObjectKind::Location,
                ObjectKind::Item,
                ObjectKind::Faction,
                ObjectKind::Other,
            ]);
        }
        v
    }
}

/// The semantic kind of a link between two elements: object to object,
/// object to structure node, or structure node to structure node.
#[derive(Debug, Clone, PartialEq, Eq, Structural)]
pub enum RelationKind {
    Friend,
    Enemy,
    Family,
    Owns,
    LocatedAt,
    BelongsTo,
    AppearsIn,
    MentionedIn,
    Foreshadows,
    Resolves,
    Parallels,
    Other,
}

impl RelationKind {
    /// The display label of this relation.
    pub open spec fn label_spec(self) -> Seq<char> {
        match self {
            RelationKind::Friend => "友好"@,
            RelationKind::Enemy => "敌对"@,
            RelationKind::Family => "亲属"@,
            RelationKind::Owns => "持有"@,
            RelationKind::LocatedAt => "所在"@,
            RelationKind::BelongsTo => "所属"@,
            RelationKind::AppearsIn => "出场"@,
            RelationKind::MentionedIn => "提及"@,
            RelationKind::Foreshadows => "铺垫"@,
            RelationKind::Resolves => "回收"@,
            RelationKind::Parallels => "并行"@,
            RelationKind::Other => "其他"@,
        }
    }

    pub fn label(&self) -> (r: &'static str)
        ensures
            r@ == self.label_spec(),
    {
        match self {
            RelationKind::Friend => "友好",
            RelationKind::Enemy => "敌对",
            RelationKind::Family => "亲属",
            RelationKind::Owns => "持有",
            RelationKind::LocatedAt => "所在",
            RelationKind::BelongsTo => "所属",
            RelationKind::AppearsIn => "出场",
            RelationKind::MentionedIn => "提及",
            RelationKind::Foreshadows => "铺垫",
            RelationKind::Resolves => "回收",
            RelationKind::Parallels => "并行",
            RelationKind::Other => "其他",
        }
    }

    /// Every relation kind, in display order.
    pub fn all() -> (r: Vec<RelationKind>)
        ensures
            r@ == seq![
                RelationKind::Friend,
                RelationKind::Enemy,
                RelationKind::Family,
                RelationKind::Owns,
                RelationKind::LocatedAt,
                RelationKind::BelongsTo,
                RelationKind::AppearsIn,
                RelationKind::MentionedIn,
                RelationKind::Foreshadows,
                RelationKind::Resolves,
                RelationKind::Parallels,
                RelationKind::Other,
            ],
    {
        let mut v: Vec<RelationKind> = Vec::new();
        v.push(RelationKind::Friend);
        v.push(RelationKind::Enemy);
        v.push(RelationKind::Family);
        v.push(RelationKind::Owns);
        v.push(RelationKind::LocatedAt);
        v.push(RelationKind::BelongsTo);
        v.push(RelationKind::AppearsIn);
        v.push(RelationKind::MentionedIn);
        v.push(RelationKind::Foreshadows);
        v.push(RelationKind::Resolves);
        v.push(RelationKind::Parallels);
        v.push(RelationKind::Other);
        proof {
            assert(v@ =~= seq![
                RelationKind::Friend,
                RelationKind::Enemy,
                RelationKind::Family,
                RelationKind::Owns,
                RelationKind::LocatedAt,
                RelationKind::BelongsTo,
                RelationKind::AppearsIn,
                RelationKind::MentionedIn,
                RelationKind::Foreshadows,
                RelationKind::Resolves,
                RelationKind::Parallels,
                RelationKind::Other,
            ]);
        }
        v
    }
}

/// What a link points to: another world object (by name) or a structure
/// node (by title).
#[derive(Debug, Clone, PartialEq)]
pub enum LinkTarget {
    Object(String),
    Node(String),
}

impl LinkTarget {
    /// The name or title this link points to.
    pub open spec fn display_name_spec(self) -> Seq<char> {
        match self {
            LinkTarget::Object(n) => n@,
            LinkTarget::Node(n) => n@,
        }
    }

    pub fn display_name(&self) -> (r: &str)
        ensures
            r@ == self.display_name_spec(),
    {
        match self {
            LinkTarget::Object(n) => n.as_str(),
            LinkTarget::Node(n) => n.as_str(),
        }
    }

    /// The label of the target's sort.
    pub open spec fn type_label_spec(self) -> Seq<char> {
        match self {
            LinkTarget::Object(_) => "对象"@,
            LinkTarget::Node(_) => "章节"@,
        }
    }

    pub fn type_label(&self) -> (r: &'static str)
        ensures
            r@ == self.type_label_spec(),
    {
        match self {
            LinkTarget::Object(_) => "对象",
            LinkTarget::Node(_) => "章节",
        }
    }
}

/// A directed association from a world object to another element.
#[derive(Debug, Clone)]
pub struct ObjectLink {
    pub target: LinkTarget,
    pub kind: RelationKind,
    pub note: String,
}

/// A unified content element: character, scene, location, item, faction.
#[derive(Debug, Clone)]
pub struct WorldObject {
    pub name: String,
    pub kind: ObjectKind,
    pub description: String,
    pub background: String,
    pub links: Vec<ObjectLink>,
}

impl WorldObject {
    /// A fresh object of the given name and kind, with everything else
    /// empty.
    pub fn new(name: &str, kind: ObjectKind) -> (r: WorldObject)
        ensures
            r.name@ == name@,
            r.kind == kind,
            r.description@ == Seq::<char>::empty(),
            r.background@ == Seq::<char>::empty(),
            r.links@ == Seq::<ObjectLink>::empty(),
    {
        let r = WorldObject {
            name: name.to_owned(),
            kind,
            description: String::new(),
            background: String::new(),
            links: Vec::new(),
        };
        proof {
            assert(r.links@ =~= Seq::<ObjectLink>::empty());
        }
        r
    }

    pub fn icon(&self) -> (r: &'static str)
        ensures
            r@ == self.kind.icon_spec(),
    {
        self.kind.icon()
    }
}

/// The dramatic tag of a chapter or structure node.
#[derive(Debug, Clone, PartialEq, Eq, Structural)]
pub enum ChapterTag {
    Normal,
    Climax,
    Foreshadow,
    Transition,
}

impl ChapterTag {
    /// The display label of this tag.
    pub open spec fn label_spec(self) -> Seq<char> {
        match self {
            ChapterTag::Normal => "普通"@,
            ChapterTag::Climax => "高潮"@,
            ChapterTag::Foreshadow => "伏笔"@,
            ChapterTag::Transition => "过渡"@,
        }
    }

    pub fn label(&self) -> (r: &'static str)
        ensures
            r@ == self.label_spec(),
    {
        match self {
            ChapterTag::Normal => "普通",
            ChapterTag::Climax => "高潮",
            ChapterTag::Foreshadow => "伏笔",
            ChapterTag::Transition => "过渡",
        }
    }

    /// Every tag, in display order.
    pub fn all() -> (r: Vec<ChapterTag>)
        ensures
            r@ == seq![
                ChapterTag::Normal,
                ChapterTag::Climax,
                ChapterTag::Foreshadow,
                ChapterTag::Transition,
            ],
    {
        let mut v: Vec<ChapterTag> = Vec::new();
        v.push(ChapterTag::Normal);
        v.push(ChapterTag::Climax);
        v.push(ChapterTag::Foreshadow);
        v.push(ChapterTag::Transition);
        proof {
            assert(v@ =~= seq![
                ChapterTag::Normal,
                ChapterTag::Climax,
                ChapterTag::Foreshadow,
                ChapterTag::Transition,
            ]);
        }
        v
    }
}

/// The hierarchical level of a structure node.
#[derive(Debug, Clone, PartialEq, Eq, Structural)]
pub enum StructKind {
    Outline,
    Volume,
    Chapter,
    Section,
}

impl StructKind {
    /// The display label of this level.
    pub open spec fn label_spec(self) -> Seq<char> {
        match self {
            StructKind::Outline => "总纲"@,
            StructKind::Volume => "卷"@,
            StructKind::Chapter => "章"@,
            StructKind::Section => "节"@,
        }
    }

    pub fn label(&self) -> (r: &'static str)
        ensures
            r@ == self.label_spec(),
    {
        match self {
            StructKind::Outline => "总纲",
            StructKind::Volume => "卷",
            StructKind::Chapter => "章",
            StructKind::Section => "节",
        }
    }

    /// The display icon of this level.
    pub open spec fn icon_spec(self) -> Seq<char> {
        match self {
            StructKind::Outline => "📋"@,
            StructKind::Volume => "📚"@,
            StructKind::Chapter => "📖"@,
            StructKind::Section => "📑"@,
        }
    }

    pub fn icon(&self) -> (r: &'static str)
        ensures
            r@ == self.icon_spec(),
    {
        match self {
            StructKind::Outline => "📋",
            StructKind::Volume => "📚",
            StructKind::Chapter => "📖",
            StructKind::Section => "📑",
        }
    }

    /// Every level, outermost first.
    pub fn all() -> (r: Vec<StructKind>)
        ensures
            r@ == seq![StructKind::Outline, StructKind::Volume, StructKind::Chapter, StructKind::Section],
    {
        let mut v: Vec<StructKind> = Vec::new();
        v.push(StructKind::Outline);
        v.push(StructKind::Volume);
        v.push(StructKind::Chapter);
        v.push(StructKind::Section);
        proof {
            assert(v@ =~= seq![
                StructKind::Outline,
                StructKind::Volume,
                StructKind::Chapter,
                StructKind::Section,
            ]);
        }
        v
    }

    /// The natural kind of a new child under this level.
    pub open spec fn default_child_kind_spec(self) -> StructKind {
        match self {
            StructKind::Outline => StructKind::Volume,
            StructKind::Volume => StructKind::Chapter,
            StructKind::Chapter => StructKind::Section,
            StructKind::Section => StructKind::Section,
        }
    }

    pub fn default_child_kind(&self) -> (r: StructKind)
        ensures
            r == self.default_child_kind_spec(),
    {
        match self {
            StructKind::Outline => StructKind::Volume,
            StructKind::Volume => StructKind::Chapter,
            StructKind::Chapter => StructKind::Section,
            StructKind::Section => StructKind::Section,
        }
    }
}

/// A non-parent cross link between two structure nodes.
#[derive(Debug, Clone)]
pub struct NodeLink {
    pub target_title: String,
    pub kind: RelationKind,
    pub note: String,
}

/// A hierarchical structure element: outline, volume, chapter or
/// section, with nested children, linked objects and cross links.
#[derive(Debug)]
pub struct StructNode {
    pub title: String,
    pub kind: StructKind,
    pub tag: ChapterTag,
    pub summary: String,
    pub done: bool,
    pub children: Vec<StructNode>,
    pub linked_objects: Vec<String>,
    pub node_links: Vec<NodeLink>,
}

impl StructNode {
    /// A fresh node of the given title and kind, untagged, not done,
    /// with no children and no links.
    pub fn new(title: &str, kind: StructKind) -> (r: StructNode)
        ensures
            r.title@ == title@,
            r.kind == kind,
            r.tag == ChapterTag::Normal,
            r.summary@ == Seq::<char>::empty(),
            !r.done,
            r.children@ == Seq::<StructNode>::empty(),
            r.linked_objects@ == Seq::<String>::empty(),
            r.node_links@ == Seq::<NodeLink>::empty(),
    {
        let r = StructNode {
            title: title.to_owned(),
            kind,
            tag: ChapterTag::Normal,
            summary: String::new(),
            done: false,
            children: Vec::new(),
            linked_objects: Vec::new(),
            node_links: Vec::new(),
        };
        proof {
            assert(r.children@ =~= Seq::<StructNode>::empty());
            assert(r.linked_objects@ =~= Seq::<String>::empty());
            assert(r.node_links@ =~= Seq::<NodeLink>::empty());
        }
        r
    }
}

/// The number of leaf nodes under `n`: one when `n` has no children,
/// else the sum over its children.
pub open spec fn leaf_count_spec(n: StructNode) -> nat
    decreases n, n.children@.len() + 1,
{
    if n.children@.len() == 0 {
        1
    } else {
        leaf_sum(n, 0)
    }
}

/// The sum of `leaf_count_spec` over `n.children[k..]`.
pub open spec fn leaf_sum(n: StructNode, k: int) -> nat
    decreases n, n.children@.len() - k,
{
    if k < 0 || k >= n.children@.len() {
        0
    } else {
        leaf_count_spec(n.children@[k]) + leaf_sum(n, k + 1)
    }
}

/// The number of done leaf nodes under `n`.
pub open spec fn done_count_spec(n: StructNode) -> nat
    decreases n, n.children@.len() + 1,
{
    if n.children@.len() == 0 {
        if n.done {
            1
        } else {
            0
        }
    } else {
        done_sum(n, 0)
    }
}

/// The sum of `done_count_spec` over `n.children[k..]`.
pub open spec fn done_sum(n: StructNode, k: int) -> nat
    decreases n, n.children@.len() - k,
{
    if k < 0 || k >= n.children@.len() {
        0
    } else {
        done_count_spec(n.children@[k]) + done_sum(n, k + 1)
    }
}

impl StructNode {
    /// Total number of leaf nodes (nodes without children) under this
    /// node.
    pub fn leaf_count(&self) -> (r: usize)
        requires
            leaf_count_spec(*self) <= usize::MAX,
        ensures
            r == leaf_count_spec(*self),
        decreases *self,
    {
        if self.children.len() == 0 {
            1
        } else {
            let mut total: usize = 0;
            let mut k: usize = 0;
            while k < self.children.len()
                invariant
                    0 <= k <= self.children@.len(),
                    total + leaf_sum(*self, k as int) == leaf_count_spec(*self),
                    leaf_count_spec(*self) <= usize::MAX,
                decreases self.children@.len() - k,
            {
                let c = &self.children[k];
                let part = c.leaf_count();
                total = total + part;
                k = k + 1;
            }
            total
        }
    }

    /// Number of done leaf nodes under this node.
    pub fn done_count(&self) -> (r: usize)
        requires
            done_count_spec(*self) <= usize::MAX,
        ensures
            r == done_count_spec(*self),
        decreases *self,
    {
        if self.children.len() == 0 {
            if self.done {
                1
            } else {
                0
            }
        } else {
            let mut total: usize = 0;
            let mut k: usize = 0;
            while k < self.children.len()
                invariant
                    0 <= k <= self.children@.len(),
                    total + done_sum(*self, k as int) == done_count_spec(*self),
                    done_count_spec(*self) <= usize::MAX,
                decreases self.children@.len() - k,
            {
                let c = &self.children[k];
                let part = c.done_count();
                total = total + part;
                k = k + 1;
            }
            total
        }
    }
}

/// The sum of `leaf_count_spec` over the forest `roots[k..]`.
pub open spec fn forest_leaf_sum(roots: Seq<StructNode>, k: int) -> nat
    decreases roots, roots.len() - k,
{
    if k < 0 || k >= roots.len() {
        0
    } else {
        leaf_count_spec(roots[k]) + forest_leaf_sum(roots, k + 1)
    }
}

/// The sum of `done_count_spec` over the forest `roots[k..]`.
pub open spec fn forest_done_sum(roots: Seq<StructNode>, k: int) -> nat
    decreases roots, roots.len() - k,
{
    if k < 0 || k >= roots.len() {
        0
    } else {
        done_count_spec(roots[k]) + forest_done_sum(roots, k + 1)
    }
}

/// Count the leaves and the done leaves of a whole structure tree.
pub fn count_progress(roots: &[StructNode]) -> (r: (usize, usize))
    requires
        forest_leaf_sum(roots@, 0) <= usize::MAX,
        forest_done_sum(roots@, 0) <= usize::MAX,
    ensures
        r.0 == forest_leaf_sum(roots@, 0),
        r.1 == forest_done_sum(roots@, 0),
{
    let mut total: usize = 0;
    let mut done: usize = 0;
    let mut k: usize = 0;
    while k < roots.len()
        invariant
            0 <= k <= roots@.len(),
            total + forest_leaf_sum(roots@, k as int) == forest_leaf_sum(roots@, 0),
            done + forest_done_sum(roots@, k as int) == forest_done_sum(roots@, 0),
            forest_leaf_sum(roots@, 0) <= usize::MAX,
            forest_done_sum(roots@, 0) <= usize::MAX,
        decreases roots@.len() - k,
    {
        let n = &roots[k];
        let t = n.leaf_count();
        let d = n.done_count();
        total = total + t;
        done = done + d;
        k = k + 1;
    }
    (total, done)
}

/// The node that an index path selects in a forest: `path[0]` picks a
/// root, each further index picks a child; the empty path selects
/// nothing, as does any index out of range.
pub open spec fn node_at_spec(roots: Seq<StructNode>, path: Seq<usize>) -> Option<StructNode>
    decreases path.len(),
{
    if path.len() == 0 {
        None
    } else if path[0] as int >= roots.len() {
        None
    } else if path.len() == 1 {
        Some(roots[path[0] as int])
    } else {
        node_at_spec(roots[path[0] as int].children@, path.drop_first())
    }
}

/// Navigate immutably into a tree of nodes by index path.
pub fn node_at<'a>(roots: &'a [StructNode], path: &[usize]) -> (r: Option<&'a StructNode>)
    ensures
        match r {
            Some(n) => node_at_spec(roots@, path@) == Some(*n),
            None => node_at_spec(roots@, path@) is None,
        },
    decreases path@.len(),
{
    if path.len() == 0 {
        return None;
    }
    if path[0] >= roots.len() {
        return None;
    }
    let node = &roots[path[0]];
    if path.len() == 1 {
        Some(node)
    } else {
        let r = node_at(node.children.as_slice(), &path[1..path.len()]);
        proof {
            assert(path@.subrange(1, path@.len() as int) =~= path@.drop_first());
        }
        r
    }
}

/// The titles of `n` and its subtree, depth first, `n`'s own first.
pub open spec fn node_titles(n: StructNode) -> Seq<Seq<char>>
    decreases n, n.children@.len() + 1,
{
    seq![n.title@] + subtree_titles(n, 0)
}

/// The titles of the subtrees of `n.children[k..]`, depth first.
pub open spec fn subtree_titles(n: StructNode, k: int) -> Seq<Seq<char>>
    decreases n, n.children@.len() - k,
{
    if k < 0 || k >= n.children@.len() {
        Seq::empty()
    } else {
        node_titles(n.children@[k]) + subtree_titles(n, k + 1)
    }
}

/// The titles of the forest `roots[k..]`, depth first.
pub open spec fn forest_titles(roots: Seq<StructNode>, k: int) -> Seq<Seq<char>>
    decreases roots, roots.len() - k,
{
    if k < 0 || k >= roots.len() {
        Seq::empty()
    } else {
        node_titles(roots[k]) + forest_titles(roots, k + 1)
    }
}

proof fn lemma_subtree_titles_forest(n: StructNode, k: int)
    ensures
        subtree_titles(n, k) == forest_titles(n.children@, k),
    decreases n.children@.len() - k,
{
    if 0 <= k < n.children@.len() {
        lemma_subtree_titles_forest(n, k + 1);
    }
}

/// The views of a sequence of strings.
pub open spec fn string_views(v: Seq<String>) -> Seq<Seq<char>> {
    Seq::new(v.len(), |i: int| v[i]@)
}

fn collect_titles(nodes: &[StructNode], out: &mut Vec<String>)
    ensures
        string_views(final(out)@) == string_views(old(out)@) + forest_titles(nodes@, 0),
    decreases nodes@,
{
    let ghost out0 = out@;
    let mut k: usize = 0;
    while k < nodes.len()
        invariant
            0 <= k <= nodes@.len(),
            string_views(out@) + forest_titles(nodes@, k as int) == string_views(out0)
                + forest_titles(nodes@, 0),
        decreases nodes@.len() - k,
    {
        let ghost mid = out@;
        let n = &nodes[k];
        out.push(n.title.clone());
        proof {
            assert(string_views(out@) =~= string_views(mid).push(n.title@));
        }
        let ghost mid2 = out@;
        collect_titles(n.children.as_slice(), out);
        proof {
            lemma_subtree_titles_forest(*n, 0);
            assert(string_views(out@) + subtree_titles(*n, 0) + forest_titles(
                nodes@,
                k as int + 1,
            ) =~= string_views(out@) + (subtree_titles(*n, 0) + forest_titles(nodes@, k as int + 1)));
            assert(string_views(mid) + node_titles(*n) =~= string_views(mid).push(n.title@)
                + subtree_titles(*n, 0));
            assert(string_views(out@) + forest_titles(nodes@, k as int + 1) =~= string_views(out0)
                + forest_titles(nodes@, 0));
        }
        k = k + 1;
    }
}

/// Collect the flat title of every node in the tree, depth first.
pub fn all_node_titles(roots: &[StructNode]) -> (r: Vec<String>)
    ensures
        string_views(r@) == forest_titles(roots@, 0),
{
    let mut out: Vec<String> = Vec::new();
    proof {
        assert(string_views(out@) =~= Seq::<Seq<char>>::empty());
    }
    collect_titles(roots, &mut out);
    proof {
        assert(Seq::<Seq<char>>::empty() + forest_titles(roots@, 0) =~= forest_titles(roots@, 0));
    }
    out
}

/// Whether `n` itself links the object named `name`.
pub open spec fn links_object(n: StructNode, name: Seq<char>) -> bool {
    exists|i: int| 0 <= i < n.linked_objects@.len() && #[trigger] n.linked_objects@[i]@ == name
}

/// The titles under `n` (own first, depth first) whose node links
/// `name`.
pub open spec fn node_linking(n: StructNode, name: Seq<char>) -> Seq<Seq<char>>
    decreases n, n.children@.len() + 1,
{
    (if links_object(n, name) {
        seq![n.title@]
    } else {
        Seq::empty()
    }) + subtree_linking(n, 0, name)
}

/// The linking titles of the subtrees of `n.children[k..]`.
pub open spec fn subtree_linking(n: StructNode, k: int, name: Seq<char>) -> Seq<Seq<char>>
    decreases n, n.children@.len() - k,
{
    if k < 0 || k >= n.children@.len() {
        Seq::empty()
    } else {
        node_linking(n.children@[k], name) + subtree_linking(n, k + 1, name)
    }
}

/// The linking titles of the forest `roots[k..]`.
pub open spec fn forest_linking(roots: Seq<StructNode>, k: int, name: Seq<char>) -> Seq<Seq<char>>
    decreases roots, roots.len() - k,
{
    if k < 0 || k >= roots.len() {
        Seq::empty()
    } else {
        node_linking(roots[k], name) + forest_linking(roots, k + 1, name)
    }
}

proof fn lemma_subtree_linking_forest(n: StructNode, k: int, name: Seq<char>)
    ensures
        subtree_linking(n, k, name) == forest_linking(n.children@, k, name),
    decreases n.children@.len() - k,
{
    if 0 <= k < n.children@.len() {
        lemma_subtree_linking_forest(n, k + 1, name);
    }
}

fn node_links_name(n: &StructNode, name: &String) -> (r: bool)
    ensures
        r == links_object(*n, name@),
{
    let mut k: usize = 0;
    let mut found = false;
    while k < n.linked_objects.len()
        invariant
            0 <= k <= n.linked_objects@.len(),
            found == exists|i: int|
                0 <= i < k && #[trigger] n.linked_objects@[i]@ == name@,
        decreases n.linked_objects@.len() - k,
    {
        let o = &n.linked_objects[k];
        if *o == *name {
            found = true;
            proof {
                assert(n.linked_objects@[k as int]@ == name@);
            }
        } else {
            proof {
                assert(!(n.linked_objects@[k as int]@ == name@));
            }
        }
        k = k + 1;
    }
    found
}

fn collect_linking(nodes: &[StructNode], name: &String, out: &mut Vec<String>)
    ensures
        string_views(final(out)@) == string_views(old(out)@) + forest_linking(nodes@, 0, name@),
    decreases nodes@,
{
    let ghost out0 = out@;
    let mut k: usize = 0;
    while k < nodes.len()
        invariant
            0 <= k <= nodes@.len(),
            string_views(out@) + forest_linking(nodes@, k as int, name@) == string_views(out0)
                + forest_linking(nodes@, 0, name@),
        decreases nodes@.len() - k,
    {
        let ghost mid = out@;
        let n = &nodes[k];
        if node_links_name(n, name) {
            out.push(n.title.clone());
            proof {
                assert(string_views(out@) =~= string_views(mid).push(n.title@));
            }
        }
        collect_linking(n.children.as_slice(), name, out);
        proof {
            lemma_subtree_linking_forest(*n, 0, name@);
            if links_object(*n, name@) {
                assert(string_views(mid) + node_linking(*n, name@) =~= string_views(mid).push(
                    n.title@,
                ) + subtree_linking(*n, 0, name@));
            } else {
                assert(string_views(mid) + node_linking(*n, name@) =~= string_views(mid)
                    + subtree_linking(*n, 0, name@));
            }
            assert(string_views(out@) + forest_linking(nodes@, k as int + 1, name@)
                =~= string_views(out0) + forest_linking(nodes@, 0, name@));
        }
        k = k + 1;
    }
}

/// Collect, depth first, the titles of every structure node that links
/// the object named `obj_name`.
pub fn collect_nodes_linking_object(roots: &[StructNode], obj_name: &str) -> (r: Vec<String>)
    ensures
        string_views(r@) == forest_linking(roots@, 0, obj_name@),
{
    let name = obj_name.to_owned();
    let mut out: Vec<String> = Vec::new();
    proof {
        assert(string_views(out@) =~= Seq::<Seq<char>>::empty());
    }
    collect_linking(roots, &name, &mut out);
    proof {
        assert(Seq::<Seq<char>>::empty() + forest_linking(roots@, 0, obj_name@) =~= forest_linking(
            roots@,
            0,
            obj_name@,
        ));
    }
    out
}

/// `a` and `b` agree on every field but `children`.
pub open spec fn same_but_children(a: StructNode, b: StructNode) -> bool {
    &&& a.title == b.title
    &&& a.kind == b.kind
    &&& a.tag == b.tag
    &&& a.summary == b.summary
    &&& a.done == b.done
    &&& a.linked_objects == b.linked_objects
    &&& a.node_links == b.node_links
}

/// `post` is `pre` with the node that `path` selects replaced by `v`;
/// where `path` selects nothing, `post` is `pre` unchanged.
pub open spec fn replaced_at(
    pre: Seq<StructNode>,
    post: Seq<StructNode>,
    path: Seq<usize>,
    v: StructNode,
) -> bool
    decreases path.len(),
{
    if path.len() == 0 {
        post == pre
    } else if path[0] as int >= pre.len() {
        post == pre
    } else if path.len() == 1 {
        post == pre.update(path[0] as int, v)
    } else {
        &&& post.len() == pre.len()
        &&& (forall|i: int| 0 <= i < pre.len() && i != path[0] as int ==> post[i] == #[trigger] pre[i])
        &&& same_but_children(pre[path[0] as int], post[path[0] as int])
        &&& replaced_at(
            pre[path[0] as int].children@,
            post[path[0] as int].children@,
            path.drop_first(),
            v,
        )
    }
}

/// `post` is `pre` with nothing changed along `path`: every node off
/// the path is the very same value, and the nodes on it agree on every
/// field and hold the same children.
pub open spec fn untouched_at(pre: Seq<StructNode>, post: Seq<StructNode>, path: Seq<usize>) -> bool
    decreases path.len(),
{
    if path.len() == 0 {
        post == pre
    } else if path[0] as int >= pre.len() {
        post == pre
    } else if path.len() == 1 {
        post == pre
    } else {
        &&& post.len() == pre.len()
        &&& (forall|i: int| 0 <= i < pre.len() && i != path[0] as int ==> post[i] == #[trigger] pre[i])
        &&& same_but_children(pre[path[0] as int], post[path[0] as int])
        &&& untouched_at(pre[path[0] as int].children@, post[path[0] as int].children@, path.drop_first())
    }
}

/// Navigate mutably into a tree of nodes by index path.  The returned
/// reference selects the same node as `node_at`; the final tree is the
/// old one with that node replaced by whatever the caller leaves in the
/// reference.
pub fn node_at_mut<'a>(roots: &'a mut Vec<StructNode>, path: &[usize]) -> (r: Option<
    &'a mut StructNode,
>)
    ensures
        match r {
            None => node_at_spec(old(roots)@, path@) is None && untouched_at(
                old(roots)@,
                final(roots)@,
                path@,
            ),
            Some(m) => node_at_spec(old(roots)@, path@) == Some(*m) && replaced_at(
                old(roots)@,
                final(roots)@,
                path@,
                *final(m),
            ),
        },
    decreases path@.len(),
{
    if path.len() == 0 {
        return None;
    }
    let idx = path[0];
    if idx >= roots.len() {
        return None;
    }
    if path.len() == 1 {
        let m = &mut roots[idx];
        return Some(m);
    }
    let node = &mut roots[idx];
    let r = node_at_mut(&mut node.children, &path[1..path.len()]);
    proof {
        assert(path@.subrange(1, path@.len() as int) =~= path@.drop_first());
        assert(old(roots)@.update(idx as int, old(roots)@[idx as int]) =~= old(roots)@);
    }
    r
}

/// `post` is `pre` with the node that `path` selects removed; where
/// `path` selects nothing, `post` is `pre` unchanged.
pub open spec fn removed_at(pre: Seq<StructNode>, post: Seq<StructNode>, path: Seq<usize>) -> bool
    decreases path.len(),
{
    if path.len() == 0 {
        post == pre
    } else if path[0] as int >= pre.len() {
        post == pre
    } else if path.len() == 1 {
        post == pre.remove(path[0] as int)
    } else {
        &&& post.len() == pre.len()
        &&& (forall|i: int| 0 <= i < pre.len() && i != path[0] as int ==> post[i] == #[trigger] pre[i])
        &&& same_but_children(pre[path[0] as int], post[path[0] as int])
        &&& removed_at(pre[path[0] as int].children@, post[path[0] as int].children@, path.drop_first())
    }
}

/// Remove the node that `path` selects; where the path selects nothing,
/// leave the tree as it is.
pub fn remove_node_at(roots: &mut Vec<StructNode>, path: &[usize])
    ensures
        removed_at(old(roots)@, final(roots)@, path@),
    decreases path@.len(),
{
    if path.len() == 0 {
        return ;
    }
    let idx = path[0];
    if idx >= roots.len() {
        return ;
    }
    if path.len() == 1 {
        roots.remove(idx);
        return ;
    }
    let node = &mut roots[idx];
    remove_node_at(&mut node.children, &path[1..path.len()]);
    proof {
        assert(path@.subrange(1, path@.len() as int) =~= path@.drop_first());
    }
}

/// `post` is `pre` with the node that `path` selects swapped with the
/// sibling before it; where `path` selects nothing or its last index is
/// zero or out of range, `post` is `pre` unchanged.
pub open spec fn moved_up_at(pre: Seq<StructNode>, post: Seq<StructNode>, path: Seq<usize>) -> bool
    decreases path.len(),
{
    if path.len() == 0 {
        post == pre
    } else if path.len() == 1 {
        if 0 < (path[0] as int) && (path[0] as int) < pre.len() {
            post == pre.update(path[0] as int - 1, pre[path[0] as int]).update(
                path[0] as int,
                pre[path[0] as int - 1],
            )
        } else {
            post == pre
        }
    } else if path[0] as int >= pre.len() {
        post == pre
    } else {
        &&& post.len() == pre.len()
        &&& (forall|i: int| 0 <= i < pre.len() && i != path[0] as int ==> post[i] == #[trigger] pre[i])
        &&& same_but_children(pre[path[0] as int], post[path[0] as int])
        &&& moved_up_at(pre[path[0] as int].children@, post[path[0] as int].children@, path.drop_first())
    }
}

/// Swap the node that `path` selects with the sibling before it; where
/// the path selects nothing or the node is already first, leave the
/// tree as it is.
pub fn move_node_up(roots: &mut Vec<StructNode>, path: &[usize])
    ensures
        moved_up_at(old(roots)@, final(roots)@, path@),
    decreases path@.len(),
{
    if path.len() == 0 {
        return ;
    }
    let idx = path[0];
    if path.len() == 1 {
        if 0 < idx && idx < roots.len() {
            let moved = roots.remove(idx - 1);
            roots.insert(idx, moved);
            proof {
                assert(final(roots)@ =~= old(roots)@.update(idx as int - 1, old(roots)@[idx as int]).update(
                    idx as int,
                    old(roots)@[idx as int - 1],
                ));
            }
        }
        return ;
    }
    if idx >= roots.len() {
        return ;
    }
    let node = &mut roots[idx];
    move_node_up(&mut node.children, &path[1..path.len()]);
    proof {
        assert(path@.subrange(1, path@.len() as int) =~= path@.drop_first());
    }
}

/// A foreshadowing entry: a planted detail and where it is paid off.
#[derive(Debug, Clone)]
pub struct Foreshadow {
    pub name: String,
    pub description: String,
    pub related_chapters: Vec<String>,
    pub resolved: bool,
}

impl Foreshadow {
    /// A fresh, unresolved entry of the given name.
    pub fn new(name: &str) -> (r: Foreshadow)
        ensures
            r.name@ == name@,
            r.description@ == Seq::<char>::empty(),
            r.related_chapters@ == Seq::<String>::empty(),
            !r.resolved,
    {
        let r = Foreshadow {
            name: name.to_owned(),
            description: String::new(),
            related_chapters: Vec::new(),
            resolved: false,
        };
        proof {
            assert(r.related_chapters@ =~= Seq::<String>::empty());
        }
        r
    }
}

/// The status tail of one foreshadow line.
pub open spec fn foreshadow_status(f: Foreshadow) -> Seq<char> {
    if f.resolved {
        "✅ 已解决"@
    } else {
        "⏳ 未解决"@
    }
}

/// Chapter titles joined by the listing mark.
pub open spec fn join_titles(v: Seq<Seq<char>>) -> Seq<char>
    decreases v.len(),
{
    if v.len() == 0 {
        Seq::empty()
    } else if v.len() == 1 {
        v[0]
    } else {
        v[0] + "、"@ + join_titles(v.drop_first())
    }
}

proof fn lemma_join_titles_push(v: Seq<Seq<char>>, x: Seq<char>)
    ensures
        join_titles(v.push(x)) == if v.len() == 0 {
            x
        } else {
            join_titles(v) + "、"@ + x
        },
    decreases v.len(),
{
    if v.len() == 0 {
        assert(v.push(x)[0] == x);
    } else if v.len() == 1 {
        assert(v.push(x).drop_first() =~= seq![x]);
        assert(join_titles(seq![x]) == x);
    } else {
        assert(v.push(x).drop_first() =~= v.drop_first().push(x));
        lemma_join_titles_push(v.drop_first(), x);
    }
}

/// The Markdown section written for one foreshadow entry: a heading
/// with its name and status, its description when present, and its
/// related chapters when present.
pub open spec fn foreshadow_entry_spec(f: Foreshadow) -> Seq<char> {
    "## "@ + f.name@ + " "@ + foreshadow_status(f) + "\n\n"@ + (if f.description@.len() > 0 {
        f.description@ + "\n\n"@
    } else {
        Seq::empty()
    }) + (if f.related_chapters@.len() > 0 {
        "**关联章节**: "@ + join_titles(string_views(f.related_chapters@)) + "\n\n"@
    } else {
        Seq::empty()
    })
}

/// The Markdown sections of `items[i..]`.
pub open spec fn foreshadow_md_from(items: Seq<Foreshadow>, i: int) -> Seq<char>
    decreases items.len() - i,
{
    if i < 0 || i >= items.len() {
        Seq::empty()
    } else {
        foreshadow_entry_spec(items[i]) + foreshadow_md_from(items, i + 1)
    }
}

/// The whole foreshadow Markdown document: a list heading, then one
/// section per entry.
pub open spec fn foreshadow_md_spec(items: Seq<Foreshadow>) -> Seq<char> {
    "# 伏笔列表\n\n"@ + foreshadow_md_from(items, 0)
}

/// Write the foreshadow list as a Markdown document.
#[verifier::rlimit(80)]
pub fn foreshadow_markdown(items: &Vec<Foreshadow>) -> (r: String)
    ensures
        r@ == foreshadow_md_spec(items@),
{
    let mut md = String::new();
    md.append("# 伏笔列表\n\n");
    let mut i: usize = 0;
    proof {
        assert(md@ =~= "# 伏笔列表\n\n"@);
    }
    while i < items.len()
        invariant
            0 <= i <= items@.len(),
            md@ + foreshadow_md_from(items@, i as int) == foreshadow_md_spec(items@),
        decreases items@.len() - i,
    {
        let ghost md0 = md@;
        let f = &items[i];
        md.append("## ");
        md.append(f.name.as_str());
        md.append(" ");
        if f.resolved {
            md.append("✅ 已解决");
        } else {
            md.append("⏳ 未解决");
        }
        md.append("\n\n");
        if !f.description.as_str().is_empty() {
            md.append(f.description.as_str());
            md.append("\n\n");
        }
        let ghost md1 = md@;
        proof {
            assert(md1 =~= md0 + "## "@ + f.name@ + " "@ + foreshadow_status(items@[i as int])
                + "\n\n"@ + (if f.description@.len() > 0 {
                f.description@ + "\n\n"@
            } else {
                Seq::<char>::empty()
            }));
        }
        if f.related_chapters.len() > 0 {
            md.append("**关联章节**: ");
            let mut k: usize = 0;
            proof {
                assert(string_views(f.related_chapters@.subrange(0, 0)) =~= Seq::<
                    Seq<char>,
                >::empty());
            }
            while k < f.related_chapters.len()
                invariant
                    0 <= k <= f.related_chapters@.len(),
                    md@ == md1 + "**关联章节**: "@ + join_titles(
                        string_views(f.related_chapters@.subrange(0, k as int)),
                    ),
                decreases f.related_chapters@.len() - k,
            {
                let ghost prev = string_views(f.related_chapters@.subrange(0, k as int));
                if k > 0 {
                    md.append("、");
                }
                md.append(f.related_chapters[k].as_str());
                k = k + 1;
                proof {
                    assert(string_views(f.related_chapters@.subrange(0, k as int)) =~= prev.push(
                        f.related_chapters@[k - 1]@,
                    ));
                    lemma_join_titles_push(prev, f.related_chapters@[k - 1]@);
                    assert(md@ =~= md1 + "**关联章节**: "@ + join_titles(
                        string_views(f.related_chapters@.subrange(0, k as int)),
                    ));
                }
            }
            md.append("\n\n");
            proof {
                assert(f.related_chapters@.subrange(0, f.related_chapters@.len() as int)
                    =~= f.related_chapters@);
            }
        }
        i = i + 1;
        proof {
            assert(md@ =~= md0 + foreshadow_entry_spec(items@[i - 1]));
            assert(md@ + foreshadow_md_from(items@, i as int) =~= foreshadow_md_spec(items@));
        }
    }
    proof {
        assert(md@ =~= foreshadow_md_spec(items@));
    }
    md
}

/// A directed relationship of one legacy character to another, by name.
#[derive(Debug, Clone)]
pub struct Relationship {
    pub target: String,
    pub kind: RelationKind,
}

/// The legacy flat character record.
#[derive(Debug, Clone)]
pub struct Character {
    pub name: String,
    pub traits: String,
    pub background: String,
    pub relationships: Vec<Relationship>,
}

impl Character {
    /// A fresh character of the given name, with everything else empty.
    pub fn new(name: &str) -> (r: Character)
        ensures
            r.name@ == name@,
            r.traits@ == Seq::<char>::empty(),
            r.background@ == Seq::<char>::empty(),
            r.relationships@ == Seq::<Relationship>::empty(),
    {
        let r = Character {
            name: name.to_owned(),
            traits: String::new(),
            background: String::new(),
            relationships: Vec::new(),
        };
        proof {
            assert(r.relationships@ =~= Seq::<Relationship>::empty());
        }
        r
    }
}

/// The legacy flat chapter record.
#[derive(Debug, Clone)]
pub struct Chapter {
    pub title: String,
    pub tag: ChapterTag,
    pub summary: String,
    pub word_count: u32,
    pub done: bool,
}

impl Chapter {
    /// A fresh chapter of the given title, untagged and not done.
    pub fn new(title: &str) -> (r: Chapter)
        ensures
            r.title@ == title@,
            r.tag == ChapterTag::Normal,
            r.summary@ == Seq::<char>::empty(),
            r.word_count == 0,
            !r.done,
    {
        Chapter {
            title: title.to_owned(),
            tag: ChapterTag::Normal,
            summary: String::new(),
            word_count: 0,
            done: false,
        }
    }
}

/// The panels of the application.
#[derive(Debug, Clone, Copy, PartialEq, Eq, Structural)]
pub enum Panel {
    Novel,
    Objects,
    Structure,
    LLM,
}

impl Panel {
    /// The display icon of this panel.
    pub open spec fn icon_spec(self) -> Seq<char> {
        match self {
            Panel::Novel => "📝"@,
            Panel::Objects => "🌐"@,
            Panel::Structure => "🏗"@,
            Panel::LLM => "🤖"@,
        }
    }

    pub fn icon(self) -> (r: &'static str)
        ensures
            r@ == self.icon_spec(),
    {
        match self {
            Panel::Novel => "📝",
            Panel::Objects => "🌐",
            Panel::Structure => "🏗",
            Panel::LLM => "🤖",
        }
    }

    /// The display label of this panel.
    pub open spec fn label_spec(self) -> Seq<char> {
        match self {
            Panel::Novel => "小说编辑"@,
            Panel::Objects => "世界对象"@,
            Panel::Structure => "章节结构"@,
            Panel::LLM => "LLM辅助"@,
        }
    }

    pub fn label(self) -> (r: &'static str)
        ensures
            r@ == self.label_spec(),
    {
        match self {
            Panel::Novel => "小说编辑",
            Panel::Objects => "世界对象",
            Panel::Structure => "章节结构",
            Panel::LLM => "LLM辅助",
        }
    }
}

} // verus!
