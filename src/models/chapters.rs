//! The recursive chapter tree, its flattening into output segments, and the
//! segments that the duration policy produces.
use crate::naming::{filename_spec, hierarchical_dirs, hierarchical_path, render_filename, OutputPath, OutputPathView};
use crate::text::{
    fail, blank, is_blank, prefixed, push_decimal, decimal, reports, sanitize, replace, sanitized,
    replace_all, string_views, with_prefix,
};
use vstd::prelude::*;

verus! {

#[derive(Debug)]
/// One node of the chapter table. A node without children is a leaf; a node
/// with children and a positive length carries audio of its own as well.
pub struct ChapterNode {
    pub length_ms: i64,
    pub start_offset_ms: i64,
    pub start_offset_sec: i64,
    pub title: String,
    pub chapters: Vec<ChapterNode>,
}

#[derive(Debug)]
/// The chapter document: its metadata and the response groups it was fetched with.
pub struct AudibleChapters {
    pub content_metadata: ContentMetadata,
    pub response_groups: Vec<String>,
}

#[derive(Debug)]
pub struct ContentMetadata {
    pub chapter_info: ChapterInfo,
    pub content_reference: ContentReference,
    pub last_position_heard: LastPositionHeard,
}

#[derive(Debug)]
/// The chapter table: the top-level chapters and the running time.
pub struct ChapterInfo {
    pub brand_intro_duration_ms: i64,
    pub brand_outro_duration_ms: i64,
    pub chapters: Vec<ChapterNode>,
    pub is_accurate: bool,
    pub runtime_length_ms: i64,
    pub runtime_length_sec: i64,
}

#[derive(Debug, Clone, PartialEq)]
pub struct ContentReference {
    pub acr: String,
    pub asin: String,
    pub codec: String,
    pub content_format: String,
    pub content_size_in_bytes: i64,
    pub file_version: String,
    pub marketplace: String,
    pub sku: String,
    pub tempo: String,
    pub version: String,
}

#[derive(Debug, Clone, PartialEq)]
pub struct LastPositionHeard {
    pub last_updated: Option<String>,
    pub position_ms: Option<i64>,
    pub status: String,
}

/// What is wrong with a node itself, before its children are looked at.
pub open spec fn own_fault(node: ChapterNode) -> Option<Seq<char>> {
    if is_blank(node.title@) {
        Some("title is empty"@)
    } else if node.chapters@.len() == 0 && node.length_ms <= 0 {
        Some("length_ms is not positive"@)
    } else if node.length_ms < 0 {
        Some("length_ms is negative"@)
    } else if node.start_offset_ms < 0 {
        Some("start_offset_ms is negative"@)
    } else if node.start_offset_sec < 0 {
        Some("start_offset_sec is negative"@)
    } else {
        None
    }
}

/// The first violation in depth-first order below `node`: the child indices
/// that lead to the offending node, and what is wrong with it.
pub open spec fn node_fault(node: ChapterNode) -> Option<(Seq<int>, Seq<char>)>
    decreases node,
{
    match own_fault(node) {
        Some(m) => Some((Seq::empty(), m)),
        None => list_fault(node.chapters@, 0),
    }
}

/// The first violation among `nodes`, whose first element has index `start`.
pub open spec fn list_fault(nodes: Seq<ChapterNode>, start: int) -> Option<(Seq<int>, Seq<char>)>
    decreases nodes,
{
    if nodes.len() == 0 {
        None
    } else {
        match node_fault(nodes[0]) {
            Some(f) => Some((seq![start] + f.0, f.1)),
            None => list_fault(nodes.subrange(1, nodes.len() as int), start + 1),
        }
    }
}

/// `chapters[i].chapters[j]...` for the child indices in `path`.
pub open spec fn path_text(path: Seq<int>) -> Seq<char>
    decreases path.len(),
{
    if path.len() == 0 {
        Seq::empty()
    } else {
        let head = "chapters["@ + decimal(path[0] as nat) + "]"@;
        if path.len() == 1 {
            head
        } else {
            head + "."@ + path_text(path.skip(1))
        }
    }
}

/// The text of a violation: its location, if it is below the node checked, and what is wrong.
pub open spec fn fault_text(fault: Option<(Seq<int>, Seq<char>)>) -> Option<Seq<char>> {
    match fault {
        Some(f) => Some(
            if f.0.len() == 0 {
                f.1
            } else {
                path_text(f.0) + ": "@ + f.1
            },
        ),
        None => None,
    }
}

pub open spec fn chapter_info_error(c: ChapterInfo) -> Option<Seq<char>> {
    if c.brand_intro_duration_ms < 0 {
        Some("brand_intro_duration_ms is negative"@)
    } else if c.brand_outro_duration_ms < 0 {
        Some("brand_outro_duration_ms is negative"@)
    } else if c.runtime_length_ms <= 0 {
        Some("runtime_length_ms is not positive"@)
    } else if c.runtime_length_sec <= 0 {
        Some("runtime_length_sec is not positive"@)
    } else {
        fault_text(list_fault(c.chapters@, 0))
    }
}

pub open spec fn content_reference_error(c: ContentReference) -> Option<Seq<char>> {
    if is_blank(c.acr@) {
        Some("acr is empty"@)
    } else if is_blank(c.asin@) {
        Some("asin is empty"@)
    } else if is_blank(c.codec@) {
        Some("codec is empty"@)
    } else if is_blank(c.content_format@) {
        Some("content_format is empty"@)
    } else if c.content_size_in_bytes <= 0 {
        Some("content_size_in_bytes is not positive"@)
    } else if is_blank(c.file_version@) {
        Some("file_version is empty"@)
    } else if is_blank(c.marketplace@) {
        Some("marketplace is empty"@)
    } else if is_blank(c.sku@) {
        Some("sku is empty"@)
    } else if is_blank(c.tempo@) {
        Some("tempo is empty"@)
    } else if is_blank(c.version@) {
        Some("version is empty"@)
    } else {
        None
    }
}

pub open spec fn last_position_error(p: LastPositionHeard) -> Option<Seq<char>> {
    if p.last_updated is Some && is_blank(p.last_updated->Some_0@) {
        Some("last_updated is empty"@)
    } else if p.position_ms is Some && p.position_ms->Some_0 < 0 {
        Some("position_ms is negative"@)
    } else if is_blank(p.status@) {
        Some("status is empty"@)
    } else {
        None
    }
}

pub open spec fn content_metadata_error(c: ContentMetadata) -> Option<Seq<char>> {
    if chapter_info_error(c.chapter_info) is Some {
        prefixed("chapter_info: "@, chapter_info_error(c.chapter_info))
    } else if content_reference_error(c.content_reference) is Some {
        prefixed("content_reference: "@, content_reference_error(c.content_reference))
    } else {
        prefixed("last_position_heard: "@, last_position_error(c.last_position_heard))
    }
}

pub open spec fn audible_chapters_error(c: AudibleChapters) -> Option<Seq<char>> {
    if content_metadata_error(c.content_metadata) is Some {
        prefixed("content_metadata: "@, content_metadata_error(c.content_metadata))
    } else if c.response_groups@.len() == 0 {
        Some("response_groups is empty"@)
    } else {
        None
    }
}

impl AudibleChapters {
    /// Checks the whole document, reporting the first violation with its location.
    pub fn validate(&self) -> (r: Result<(), String>)
        ensures
            reports(r, audible_chapters_error(*self)),
    {
        let m = with_prefix("content_metadata: ", self.content_metadata.validate());
        if m.is_err() {
            return m;
        }
        if self.response_groups.len() == 0 {
            return fail("response_groups is empty");
        }
        Ok(())
    }
}

impl ContentMetadata {
    /// Checks the chapter table, the content reference and the last position, in that order.
    pub fn validate(&self) -> (r: Result<(), String>)
        ensures
            reports(r, content_metadata_error(*self)),
    {
        let c = with_prefix("chapter_info: ", self.chapter_info.validate());
        if c.is_err() {
            return c;
        }
        let c = with_prefix("content_reference: ", self.content_reference.validate());
        if c.is_err() {
            return c;
        }
        with_prefix("last_position_heard: ", self.last_position_heard.validate())
    }
}

impl ChapterInfo {
    /// Checks the durations and then every chapter, depth first.
    pub fn validate(&self) -> (r: Result<(), String>)
        ensures
            reports(r, chapter_info_error(*self)),
    {
        if self.brand_intro_duration_ms < 0 {
            return fail("brand_intro_duration_ms is negative");
        }
        if self.brand_outro_duration_ms < 0 {
            return fail("brand_outro_duration_ms is negative");
        }
        if self.runtime_length_ms <= 0 {
            return fail("runtime_length_ms is not positive");
        }
        if self.runtime_length_sec <= 0 {
            return fail("runtime_length_sec is not positive");
        }
        let f = find_list_fault(&self.chapters);
        render_fault(f)
    }

    /// Flattens the top-level chapters in order with one counter, numbering the
    /// segments from 1; `None` when the segments or levels would not fit in a `usize`.
    pub fn flatten(&self) -> (r: Option<Vec<FlattenedChapter>>)
        ensures
            r is Some <==> (1 + flat_list(self.chapters@, Seq::empty(), 0, 1).len() <= usize::MAX
                && depth_fits_all(self.chapters@, 0)),
            r is Some ==> flat_views(r->Some_0@) == flat_list(self.chapters@, Seq::empty(), 0, 1),
    {
        if list_segments_fit(&self.chapters) {
            Some(self.flatten_all())
        } else {
            None
        }
    }

    fn flatten_all(&self) -> (r: Vec<FlattenedChapter>)
        requires
            1 + flat_list(self.chapters@, Seq::empty(), 0, 1).len() <= usize::MAX,
            depth_fits_all(self.chapters@, 0),
        ensures
            flat_views(r@) == flat_list(self.chapters@, Seq::empty(), 0, 1),
    {
        let ghost total = flat_list(self.chapters@, Seq::empty(), 0, 1);
        let mut result: Vec<FlattenedChapter> = Vec::new();
        let mut counter: usize = 1;
        let mut j: usize = 0;
        assert(self.chapters@.skip(0) =~= self.chapters@);
        assert(flat_views(result@) =~= Seq::<FlatView>::empty());
        while j < self.chapters.len()
            invariant
                0 <= j <= self.chapters@.len(),
                depth_fits_all(self.chapters@, 0),
                1 + total.len() <= usize::MAX,
                total == flat_list(self.chapters@, Seq::empty(), 0, 1),
                flat_views(result@) + flat_list(self.chapters@.skip(j as int), Seq::empty(), 0, counter as nat) == total,
                counter + flat_list(self.chapters@.skip(j as int), Seq::empty(), 0, counter as nat).len() == 1 + total.len(),
            decreases self.chapters.len() - j,
        {
            proof {
                lemma_flat_list_unfold(self.chapters@, j as int, Seq::empty(), 0, counter as nat);
            }
            assert(depth_fits(self.chapters@[j as int], 0));
            self.chapters[j].flatten_recursive(&mut result, &mut counter, String::new(), 0);
            j = j + 1;
            assert(flat_views(result@) + flat_list(self.chapters@.skip(j as int), Seq::empty(), 0, counter as nat) =~= total);
        }
        assert(self.chapters@.skip(j as int) =~= Seq::<ChapterNode>::empty());
        assert(flat_views(result@) =~= total);
        result
    }
}

impl ContentReference {
    /// Checks that every text field is non-blank and the size is positive.
    pub fn validate(&self) -> (r: Result<(), String>)
        ensures
            reports(r, content_reference_error(*self)),
    {
        if blank(self.acr.as_str()) {
            return fail("acr is empty");
        }
        if blank(self.asin.as_str()) {
            return fail("asin is empty");
        }
        if blank(self.codec.as_str()) {
            return fail("codec is empty");
        }
        if blank(self.content_format.as_str()) {
            return fail("content_format is empty");
        }
        if self.content_size_in_bytes <= 0 {
            return fail("content_size_in_bytes is not positive");
        }
        if blank(self.file_version.as_str()) {
            return fail("file_version is empty");
        }
        if blank(self.marketplace.as_str()) {
            return fail("marketplace is empty");
        }
        if blank(self.sku.as_str()) {
            return fail("sku is empty");
        }
        if blank(self.tempo.as_str()) {
            return fail("tempo is empty");
        }
        if blank(self.version.as_str()) {
            return fail("version is empty");
        }
        Ok(())
    }
}

impl LastPositionHeard {
    /// Checks the optional fields where present, and the status.
    pub fn validate(&self) -> (r: Result<(), String>)
        ensures
            reports(r, last_position_error(*self)),
    {
        match &self.last_updated {
            Some(u) => {
                if blank(u.as_str()) {
                    return fail("last_updated is empty");
                }
            },
            None => {},
        }
        match self.position_ms {
            Some(p) => {
                if p < 0 {
                    return fail("position_ms is negative");
                }
            },
            None => {},
        }
        if blank(self.status.as_str()) {
            return fail("status is empty");
        }
        Ok(())
    }
}

/// The first violation below `node`, depth first.
fn find_fault(node: &ChapterNode) -> (r: Option<(Vec<usize>, String)>)
    ensures
        match r {
            Some(f) => node_fault(*node) == Some((f.0@.map_values(|k: usize| k as int), f.1@)),
            None => node_fault(*node) is None,
        },
    decreases node,
{
    if blank(node.title.as_str()) {
        return Some((Vec::new(), String::from_str("title is empty")));
    }
    if node.chapters.len() == 0 && node.length_ms <= 0 {
        return Some((Vec::new(), String::from_str("length_ms is not positive")));
    }
    if node.length_ms < 0 {
        return Some((Vec::new(), String::from_str("length_ms is negative")));
    }
    if node.start_offset_ms < 0 {
        return Some((Vec::new(), String::from_str("start_offset_ms is negative")));
    }
    if node.start_offset_sec < 0 {
        return Some((Vec::new(), String::from_str("start_offset_sec is negative")));
    }
    find_list_fault(&node.chapters)
}

/// The first violation among `nodes`, depth first.
fn find_list_fault(nodes: &Vec<ChapterNode>) -> (r: Option<(Vec<usize>, String)>)
    ensures
        match r {
            Some(f) => list_fault(nodes@, 0) == Some((f.0@.map_values(|k: usize| k as int), f.1@)),
            None => list_fault(nodes@, 0) is None,
        },
    decreases nodes,
{
    let mut i: usize = 0;
    assert(nodes@.skip(0) =~= nodes@);
    while i < nodes.len()
        invariant
            i <= nodes@.len(),
            list_fault(nodes@, 0) == list_fault(nodes@.skip(i as int), i as int),
        decreases nodes.len() - i,
    {
        let ghost rest = nodes@.skip(i as int);
        assert(rest[0] == nodes@[i as int]);
        assert(rest.subrange(1, rest.len() as int) =~= nodes@.skip(i + 1));
        match find_fault(&nodes[i]) {
            Some((path, msg)) => {
                let mut p = path;
                let ghost old_p = p@;
                p.insert(0, i);
                assert(p@.map_values(|k: usize| k as int) =~= seq![i as int] + old_p.map_values(|k: usize| k as int));
                return Some((p, msg));
            },
            None => {},
        }
        i = i + 1;
    }
    assert(nodes@.skip(i as int) =~= Seq::<ChapterNode>::empty());
    None
}

/// The text of a violation found by [`find_fault`] or [`find_list_fault`].
fn render_fault(f: Option<(Vec<usize>, String)>) -> (r: Result<(), String>)
    ensures
        forall|fault: Option<(Seq<int>, Seq<char>)>|
            (match f {
                Some(g) => fault == Some((g.0@.map_values(|k: usize| k as int), g.1@)),
                None => fault is None,
            }) ==> reports(r, fault_text(fault)),
{
    match f {
        None => Ok(()),
        Some((path, msg)) => {
            let ghost ints = path@.map_values(|k: usize| k as int);
            if path.len() == 0 {
                return Err(msg);
            }
            let mut t = String::new();
            let mut k: usize = path.len();
            // Built from the innermost index outwards.
            while k > 0
                invariant
                    k <= path@.len(),
                    path@.len() > 0,
                    ints == path@.map_values(|k: usize| k as int),
                    k < path@.len() ==> t@ == path_text(ints.skip(k as int)),
                    k == path@.len() ==> t@ == Seq::<char>::empty(),
                decreases k,
            {
                k = k - 1;
                let ghost prev = t@;
                let mut head = String::from_str("chapters[");
                push_decimal(&mut head, path[k] as u64);
                head.append("]");
                if k + 1 < path.len() {
                    head.append(".");
                }
                head.append(t.as_str());
                t = head;
                assert(ints.skip(k as int)[0] == path@[k as int] as int);
                assert(ints.skip(k as int).skip(1) =~= ints.skip(k + 1));
            }
            assert(ints.skip(0) =~= ints);
            t.append(": ");
            t.append(msg.as_str());
            Err(t)
        },
    }
}

impl ChapterNode {
    /// Checks this node and its descendants, depth first, reporting the first
    /// violation with the child indices that lead to it.
    pub fn validate(&self) -> (r: Result<(), String>)
        ensures
            reports(r, fault_text(node_fault(*self))),
    {
        render_fault(find_fault(self))
    }
}

#[derive(Debug, Clone, PartialEq)]
/// How output files are named.
pub enum ChapterNamingFormat {
    /// `Chapter01_Title.ext`
    ChapterNumberTitle,
    /// `01_Title.ext`
    NumberTitle,
    /// `Title.ext`
    TitleOnly,
    /// A pattern with the placeholders `{chapter:02}`, `{chapter}`, `{number:02}`,
    /// `{number}`, `{title}` and `{extension}`.
    Custom(String),
}

#[derive(Debug, Clone, PartialEq)]
/// A segment found by flattening the tree.
pub struct FlattenedChapter {
    pub title: String,
    /// The ` > `-joined ancestor titles, used for the directory structure.
    pub full_path: String,
    pub start_offset_ms: i64,
    pub length_ms: i64,
    pub start_offset_sec: i64,
    /// The depth at which the node was found.
    pub level: usize,
    /// The 1-based position in the flattened order.
    pub chapter_number: usize,
}

/// The mathematical value of a [`FlattenedChapter`].
pub struct FlatView {
    pub title: Seq<char>,
    pub full_path: Seq<char>,
    pub start_offset_ms: i64,
    pub length_ms: i64,
    pub start_offset_sec: i64,
    pub level: nat,
    pub chapter_number: nat,
}

impl View for FlattenedChapter {
    type V = FlatView;

    open spec fn view(&self) -> FlatView {
        FlatView {
            title: self.title@,
            full_path: self.full_path@,
            start_offset_ms: self.start_offset_ms,
            length_ms: self.length_ms,
            start_offset_sec: self.start_offset_sec,
            level: self.level as nat,
            chapter_number: self.chapter_number as nat,
        }
    }
}

pub open spec fn flat_views(s: Seq<FlattenedChapter>) -> Seq<FlatView> {
    s.map_values(|c: FlattenedChapter| c@)
}

/// The separator between the titles of a hierarchical path.
pub open spec fn path_sep() -> Seq<char> {
    seq![' ', '>', ' ']
}

/// The path of a node below `parent`.
pub open spec fn join_path(parent: Seq<char>, title: Seq<char>) -> Seq<char> {
    if parent.len() == 0 {
        title
    } else {
        parent + path_sep() + title
    }
}

/// The file-system safe title of a segment whose hierarchical path is `full`:
/// the titles joined by `_`, then sanitized.
pub open spec fn hierarchical_title(full: Seq<char>) -> Seq<char> {
    sanitized(replace_all(full, path_sep(), "_"@))
}

/// Whether the node gives a segment of its own: a leaf, or a content parent.
pub open spec fn emits(node: ChapterNode) -> bool {
    node.chapters@.len() == 0 || node.length_ms > 0
}

/// The segment a node gives when it is found below `parent` at `level`, numbered `number`.
pub open spec fn node_segment(node: ChapterNode, parent: Seq<char>, level: nat, number: nat) -> FlatView {
    let full = join_path(parent, node.title@);
    FlatView {
        title: hierarchical_title(full),
        full_path: if node.chapters@.len() == 0 {
            full
        } else {
            node.title@
        },
        start_offset_ms: node.start_offset_ms,
        length_ms: node.length_ms,
        start_offset_sec: node.start_offset_sec,
        level,
        chapter_number: number,
    }
}

/// The segments of `node` and its descendants in depth-first pre-order, numbered from `counter`.
pub open spec fn flat_node(node: ChapterNode, parent: Seq<char>, level: nat, counter: nat) -> Seq<FlatView>
    decreases node,
{
    let own: Seq<FlatView> = if emits(node) {
        seq![node_segment(node, parent, level, counter)]
    } else {
        Seq::empty()
    };
    own + flat_list(node.chapters@, join_path(parent, node.title@), level + 1, counter + own.len())
}

/// The segments of the sibling list `nodes`, in order, numbered from `counter`.
pub open spec fn flat_list(nodes: Seq<ChapterNode>, parent: Seq<char>, level: nat, counter: nat) -> Seq<FlatView>
    decreases nodes,
{
    if nodes.len() == 0 {
        Seq::empty()
    } else {
        let first = flat_node(nodes[0], parent, level, counter);
        first + flat_list(nodes.subrange(1, nodes.len() as int), parent, level, counter + first.len())
    }
}

/// Every level reached below `node`, found at `level`, fits in a `usize`.
pub open spec fn depth_fits(node: ChapterNode, level: nat) -> bool
    decreases node,
{
    &&& level < usize::MAX
    &&& forall|i: int|
        0 <= i < node.chapters@.len() ==> depth_fits(#[trigger] node.chapters@[i], level + 1)
}

pub open spec fn depth_fits_all(nodes: Seq<ChapterNode>, level: nat) -> bool {
    forall|i: int| 0 <= i < nodes.len() ==> depth_fits(#[trigger] nodes[i], level)
}

proof fn lemma_flat_list_unfold(nodes: Seq<ChapterNode>, j: int, parent: Seq<char>, level: nat, counter: nat)
    requires
        0 <= j < nodes.len(),
    ensures
        flat_list(nodes.skip(j), parent, level, counter) == flat_node(nodes[j], parent, level, counter)
            + flat_list(nodes.skip(j + 1), parent, level, counter + flat_node(nodes[j], parent, level, counter).len()),
{
    assert(nodes.skip(j).subrange(1, nodes.skip(j).len() as int) =~= nodes.skip(j + 1));
    assert(nodes.skip(j)[0] == nodes[j]);
}

#[derive(Debug, Clone, PartialEq)]
/// A segment after the duration policy: a flattened segment, possibly with
/// short segments absorbed into it.
pub struct MergedChapter {
    pub title: String,
    pub full_path: String,
    pub start_offset_ms: i64,
    pub length_ms: i64,
    pub start_offset_sec: i64,
    pub level: usize,
    pub chapter_number: usize,
    /// The titles of the segments merged into this one, in absorption order.
    pub merged_chapters: Vec<String>,
}

/// The mathematical value of a [`MergedChapter`].
pub struct MergedView {
    pub title: Seq<char>,
    pub full_path: Seq<char>,
    pub start_offset_ms: i64,
    pub length_ms: i64,
    pub start_offset_sec: i64,
    pub level: nat,
    pub chapter_number: nat,
    pub merged_chapters: Seq<Seq<char>>,
}

impl View for MergedChapter {
    type V = MergedView;

    open spec fn view(&self) -> MergedView {
        MergedView {
            title: self.title@,
            full_path: self.full_path@,
            start_offset_ms: self.start_offset_ms,
            length_ms: self.length_ms,
            start_offset_sec: self.start_offset_sec,
            level: self.level as nat,
            chapter_number: self.chapter_number as nat,
            merged_chapters: string_views(self.merged_chapters@),
        }
    }
}

pub open spec fn merged_views(s: Seq<MergedChapter>) -> Seq<MergedView> {
    s.map_values(|c: MergedChapter| c@)
}

/// A flattened segment passed through unchanged, with its own title as the only merged title.
pub open spec fn pass_through(c: FlatView) -> MergedView {
    MergedView {
        title: c.title,
        full_path: c.full_path,
        start_offset_ms: c.start_offset_ms,
        length_ms: c.length_ms,
        start_offset_sec: c.start_offset_sec,
        level: c.level,
        chapter_number: c.chapter_number,
        merged_chapters: seq![c.title],
    }
}

/// The titles joined by `, `.
pub open spec fn join_titles(s: Seq<Seq<char>>) -> Seq<char>
    decreases s.len(),
{
    if s.len() == 0 {
        Seq::empty()
    } else if s.len() == 1 {
        s[0]
    } else {
        join_titles(s.drop_last()) + ", "@ + s.last()
    }
}

/// `first (includes: second, third, ...)`.
pub open spec fn merged_title(titles: Seq<Seq<char>>) -> Seq<char> {
    titles[0] + " (includes: "@ + join_titles(titles.skip(1)) + ")"@
}

/// The length that covers `m` from its own start through the end of `other`,
/// and never less than the length `m` had.
pub open spec fn extended_length(m: MergedView, other: FlatView) -> int {
    let e = other.start_offset_ms + other.length_ms - m.start_offset_ms;
    if e > m.length_ms {
        e
    } else {
        m.length_ms as int
    }
}

/// `m` after absorbing `other`.
pub open spec fn absorb(m: MergedView, other: FlatView) -> MergedView {
    let titles = m.merged_chapters.push(other.title);
    MergedView {
        title: if titles.len() > 1 {
            merged_title(titles)
        } else {
            m.title
        },
        length_ms: extended_length(m, other) as i64,
        merged_chapters: titles,
        ..m
    }
}

/// The arithmetic of absorbing `other` into `m` stays within `i64`.
pub open spec fn absorb_fits(m: MergedView, other: FlatView) -> bool {
    &&& i64::MIN <= other.start_offset_ms + other.length_ms <= i64::MAX
    &&& i64::MIN <= other.start_offset_ms + other.length_ms - m.start_offset_ms <= i64::MAX
}

impl MergedChapter {
    /// A pass-through segment made from `chapter`.
    pub fn from_flattened(chapter: &FlattenedChapter) -> (r: MergedChapter)
        ensures
            r@ == pass_through(chapter@),
    {
        let r = MergedChapter {
            title: chapter.title.clone(),
            full_path: chapter.full_path.clone(),
            start_offset_ms: chapter.start_offset_ms,
            length_ms: chapter.length_ms,
            start_offset_sec: chapter.start_offset_sec,
            level: chapter.level,
            chapter_number: chapter.chapter_number,
            merged_chapters: vec![chapter.title.clone()],
        };
        assert(r@.merged_chapters =~= seq![chapter.title@]);
        r
    }

    /// Absorbs `other`: the length is extended to reach the end of `other`, its
    /// title is added to the merged titles, and the title lists them.
    pub fn merge_with(&mut self, other: &FlattenedChapter)
        requires
            absorb_fits(old(self)@, other@),
        ensures
            final(self)@ == absorb(old(self)@, other@),
    {
        let other_end = other.start_offset_ms + other.length_ms;
        let extended = other_end - self.start_offset_ms;
        if extended > self.length_ms {
            self.length_ms = extended;
        }
        let ghost before = self.merged_chapters@;
        self.merged_chapters.push(other.title.clone());
        let ghost titles = string_views(self.merged_chapters@);
        assert(titles =~= string_views(before).push(other.title@));
        let n = self.merged_chapters.len();
        if n > 1 {
            let mut t = self.merged_chapters[0].clone();
            t.append(" (includes: ");
            let mut k: usize = 1;
            assert(titles.subrange(1, 1) =~= Seq::<Seq<char>>::empty());
            while k < n
                invariant
                    n == self.merged_chapters@.len(),
                    titles == string_views(self.merged_chapters@),
                    1 <= k <= n,
                    t@ == titles[0] + " (includes: "@ + join_titles(titles.subrange(1, k as int)),
                decreases n - k,
            {
                assert(titles[k as int] == self.merged_chapters@[k as int]@);
                if k > 1 {
                    t.append(", ");
                }
                t.append(self.merged_chapters[k].as_str());
                assert(titles.subrange(1, k + 1 as int).drop_last() =~= titles.subrange(1, k as int));
                if k == 1 {
                    assert(titles.subrange(1, 2) =~= seq![titles[1]]);
                    assert(join_titles(titles.subrange(1, 2)) == titles[1]);
                }
                k = k + 1;
                assert(t@ =~= titles[0] + " (includes: "@ + join_titles(titles.subrange(1, k as int)));
            }
            t.append(")");
            assert(titles.subrange(1, n as int) =~= titles.skip(1));
            assert(titles[0] == self.merged_chapters@[0]@);
            self.title = t;
        }
    }

    /// The file name of this segment under `format`.
    pub fn generate_filename(&self, format: &ChapterNamingFormat, extension: &str) -> (r: String)
        ensures
            r@ == filename_spec(*format, self.chapter_number as nat, self.title@, extension@),
    {
        render_filename(format, self.chapter_number, self.title.as_str(), extension)
    }

    /// Where this segment's file goes under `base_path` when directories mirror the chapter hierarchy.
    pub fn get_hierarchical_output_path(
        &self,
        base_path: &str,
        format: &ChapterNamingFormat,
        extension: &str,
    ) -> (r: OutputPath)
        ensures
            r@ == (OutputPathView {
                base: base_path@,
                dirs: hierarchical_dirs(
                    self.full_path@,
                    filename_spec(*format, self.chapter_number as nat, self.title@, extension@),
                ),
                file_name: filename_spec(*format, self.chapter_number as nat, self.title@, extension@),
            }),
    {
        let filename = self.generate_filename(format, extension);
        hierarchical_path(base_path, self.full_path.as_str(), filename)
    }

    /// Where this segment's file goes directly under `base_path`.
    pub fn get_output_path(&self, base_path: &str, format: &ChapterNamingFormat, extension: &str) -> (r: OutputPath)
        ensures
            r@ == (OutputPathView {
                base: base_path@,
                dirs: Seq::empty(),
                file_name: filename_spec(*format, self.chapter_number as nat, self.title@, extension@),
            }),
    {
        let file_name = self.generate_filename(format, extension);
        let r = OutputPath { base: String::from_str(base_path), dirs: Vec::new(), file_name };
        assert(r@.dirs =~= Seq::<Seq<char>>::empty());
        r
    }
}

impl FlattenedChapter {
    /// Whether the segment is at least `min_duration_ms` long.
    pub fn should_include(&self, min_duration_ms: i64) -> (r: bool)
        ensures
            r == (self.length_ms >= min_duration_ms),
    {
        self.length_ms >= min_duration_ms
    }

    /// Whether the segment is short but carries audio, so that it is merged into the next one.
    pub fn should_merge_with_next(&self, min_duration_ms: i64) -> (r: bool)
        ensures
            r == (self.length_ms < min_duration_ms && self.length_ms > 0),
    {
        self.length_ms < min_duration_ms && self.length_ms > 0
    }

    /// The file name of this segment under `format`.
    pub fn generate_filename(&self, format: &ChapterNamingFormat, extension: &str) -> (r: String)
        ensures
            r@ == filename_spec(*format, self.chapter_number as nat, self.title@, extension@),
    {
        render_filename(format, self.chapter_number, self.title.as_str(), extension)
    }

    /// Where this segment's file goes directly under `base_path`.
    pub fn get_output_path(&self, base_path: &str, format: &ChapterNamingFormat, extension: &str) -> (r: OutputPath)
        ensures
            r@ == (OutputPathView {
                base: base_path@,
                dirs: Seq::empty(),
                file_name: filename_spec(*format, self.chapter_number as nat, self.title@, extension@),
            }),
    {
        let file_name = self.generate_filename(format, extension);
        let r = OutputPath { base: String::from_str(base_path), dirs: Vec::new(), file_name };
        assert(r@.dirs =~= Seq::<Seq<char>>::empty());
        r
    }

    /// Where this segment's file goes under `base_path` when directories mirror the chapter hierarchy.
    pub fn get_hierarchical_output_path(
        &self,
        base_path: &str,
        format: &ChapterNamingFormat,
        extension: &str,
    ) -> (r: OutputPath)
        ensures
            r@ == (OutputPathView {
                base: base_path@,
                dirs: hierarchical_dirs(
                    self.full_path@,
                    filename_spec(*format, self.chapter_number as nat, self.title@, extension@),
                ),
                file_name: filename_spec(*format, self.chapter_number as nat, self.title@, extension@),
            }),
    {
        let filename = self.generate_filename(format, extension);
        hierarchical_path(base_path, self.full_path.as_str(), filename)
    }
}

proof fn lemma_node_numbering(node: ChapterNode, parent: Seq<char>, level: nat, counter: nat)
    ensures
        forall|i: int|
            0 <= i < flat_node(node, parent, level, counter).len() ==> (#[trigger] flat_node(
                node,
                parent,
                level,
                counter,
            )[i]).chapter_number == counter + i,
    decreases node,
{
    let own: Seq<FlatView> = if emits(node) {
        seq![node_segment(node, parent, level, counter)]
    } else {
        Seq::empty()
    };
    let full = join_path(parent, node.title@);
    lemma_list_numbering(node.chapters@, full, level + 1, counter + own.len());
    let rest = flat_list(node.chapters@, full, level + 1, counter + own.len());
    assert(flat_node(node, parent, level, counter) == own + rest);
    assert forall|i: int| 0 <= i < flat_node(node, parent, level, counter).len() implies (
    #[trigger] flat_node(node, parent, level, counter)[i]).chapter_number == counter + i by {
        if i >= own.len() {
            assert((own + rest)[i] == rest[i - own.len()]);
        }
    }
}

proof fn lemma_list_numbering(nodes: Seq<ChapterNode>, parent: Seq<char>, level: nat, counter: nat)
    ensures
        forall|i: int|
            0 <= i < flat_list(nodes, parent, level, counter).len() ==> (#[trigger] flat_list(
                nodes,
                parent,
                level,
                counter,
            )[i]).chapter_number == counter + i,
    decreases nodes,
{
    if nodes.len() > 0 {
        let first = flat_node(nodes[0], parent, level, counter);
        let tail = nodes.subrange(1, nodes.len() as int);
        lemma_node_numbering(nodes[0], parent, level, counter);
        lemma_list_numbering(tail, parent, level, counter + first.len());
        let rest = flat_list(tail, parent, level, counter + first.len());
        assert(flat_list(nodes, parent, level, counter) == first + rest);
        assert forall|i: int| 0 <= i < flat_list(nodes, parent, level, counter).len() implies (
        #[trigger] flat_list(nodes, parent, level, counter)[i]).chapter_number == counter + i by {
            if i >= first.len() {
                assert((first + rest)[i] == rest[i - first.len()]);
            } else {
                assert((first + rest)[i] == first[i]);
            }
        }
    }
}

/// Flattening numbers the segments 1, 2, 3, ... in the order they are emitted,
/// whatever the shape of the tree: each number is one more than the one before.
pub proof fn lemma_flatten_numbers_consecutive(nodes: Seq<ChapterNode>)
    ensures
        flat_list(nodes, Seq::empty(), 0, 1).len() > 0 ==> flat_list(nodes, Seq::empty(), 0, 1)[0].chapter_number == 1,
        forall|i: int|
            0 <= i < flat_list(nodes, Seq::empty(), 0, 1).len() - 1 ==> #[trigger] flat_list(
                nodes,
                Seq::empty(),
                0,
                1,
            )[i + 1].chapter_number == flat_list(nodes, Seq::empty(), 0, 1)[i].chapter_number + 1,
{
    lemma_list_numbering(nodes, Seq::empty(), 0, 1);
    let r = flat_list(nodes, Seq::empty(), 0, 1);
    assert forall|i: int| 0 <= i < r.len() - 1 implies #[trigger] r[i + 1].chapter_number == r[i].chapter_number + 1 by {
        assert(r[i + 1].chapter_number == 1 + i + 1);
        assert(r[i].chapter_number == 1 + i);
    }
}

/// Flattening a list of leaves found at the top of the tree gives one segment per
/// leaf, in input order, each with the leaf's own title as its path and the leaf's
/// offsets and length.
pub proof fn lemma_flatten_leaves(nodes: Seq<ChapterNode>, counter: nat)
    requires
        forall|i: int| 0 <= i < nodes.len() ==> (#[trigger] nodes[i]).chapters@.len() == 0,
    ensures
        flat_list(nodes, Seq::empty(), 0, counter).len() == nodes.len(),
        forall|i: int|
            0 <= i < nodes.len() ==> #[trigger] flat_list(nodes, Seq::empty(), 0, counter)[i]
                == node_segment(nodes[i], Seq::empty(), 0, (counter + i) as nat),
        forall|i: int|
            0 <= i < nodes.len() ==> {
                let seg = #[trigger] flat_list(nodes, Seq::empty(), 0, counter)[i];
                &&& seg.full_path == nodes[i].title@
                &&& seg.title == hierarchical_title(nodes[i].title@)
                &&& seg.start_offset_ms == nodes[i].start_offset_ms
                &&& seg.length_ms == nodes[i].length_ms
                &&& seg.start_offset_sec == nodes[i].start_offset_sec
            },
    decreases nodes.len(),
{
    if nodes.len() > 0 {
        let tail = nodes.subrange(1, nodes.len() as int);
        let n0 = nodes[0];
        assert(n0.chapters@.len() == 0);
        assert(flat_list(n0.chapters@, join_path(Seq::empty(), n0.title@), 1, counter + 1) =~= Seq::<FlatView>::empty());
        assert(flat_node(n0, Seq::empty(), 0, counter) =~= seq![node_segment(n0, Seq::empty(), 0, counter)]);
        lemma_flatten_leaves(tail, counter + 1);
        let rest = flat_list(tail, Seq::empty(), 0, counter + 1);
        let r = flat_list(nodes, Seq::empty(), 0, counter);
        assert(r == seq![node_segment(n0, Seq::empty(), 0, counter)] + rest);
        assert forall|i: int| 0 <= i < nodes.len() implies #[trigger] r[i] == node_segment(nodes[i], Seq::empty(), 0, (counter + i) as nat) by {
            if i > 0 {
                assert(tail[i - 1] == nodes[i]);
                assert(r[i] == rest[i - 1]);
            }
        }
    }
}

/// The number of segments that `node` and its descendants give.
pub open spec fn node_count(node: ChapterNode) -> nat
    decreases node,
{
    (if emits(node) {
        1nat
    } else {
        0nat
    }) + list_count(node.chapters@)
}

/// The number of segments that the sibling list `nodes` gives.
pub open spec fn list_count(nodes: Seq<ChapterNode>) -> nat
    decreases nodes,
{
    if nodes.len() == 0 {
        0
    } else {
        node_count(nodes[0]) + list_count(nodes.subrange(1, nodes.len() as int))
    }
}

proof fn lemma_node_len(node: ChapterNode, parent: Seq<char>, level: nat, counter: nat)
    ensures
        flat_node(node, parent, level, counter).len() == node_count(node),
    decreases node,
{
    let own: nat = if emits(node) {
        1
    } else {
        0
    };
    lemma_list_len(node.chapters@, join_path(parent, node.title@), level + 1, counter + own);
}

proof fn lemma_list_len(nodes: Seq<ChapterNode>, parent: Seq<char>, level: nat, counter: nat)
    ensures
        flat_list(nodes, parent, level, counter).len() == list_count(nodes),
    decreases nodes,
{
    if nodes.len() > 0 {
        lemma_node_len(nodes[0], parent, level, counter);
        lemma_list_len(
            nodes.subrange(1, nodes.len() as int),
            parent,
            level,
            counter + flat_node(nodes[0], parent, level, counter).len(),
        );
    }
}

/// The number of segments of `node` where every level below it fits and that
/// number is at most `limit`.
fn count_segments(node: &ChapterNode, level: usize, limit: usize) -> (r: Option<usize>)
    ensures
        r == (if depth_fits(*node, level as nat) && node_count(*node) <= limit {
            Some(node_count(*node) as usize)
        } else {
            None::<usize>
        }),
    decreases node,
{
    if level == usize::MAX {
        return None;
    }
    let own: usize = if node.chapters.len() == 0 || node.length_ms > 0 {
        1
    } else {
        0
    };
    if own > limit {
        return None;
    }
    let mut total: usize = own;
    let mut i: usize = 0;
    let ghost kids = node.chapters@;
    assert(kids.skip(0) =~= kids);
    while i < node.chapters.len()
        invariant
            kids == node.chapters@,
            i <= kids.len(),
            level < usize::MAX,
            total <= limit,
            node_count(*node) == total + list_count(kids.skip(i as int)),
            forall|j: int| 0 <= j < i ==> depth_fits(#[trigger] kids[j], (level + 1) as nat),
        decreases kids.len() - i,
    {
        let ghost rest = kids.skip(i as int);
        assert(rest[0] == kids[i as int]);
        assert(rest.subrange(1, rest.len() as int) =~= kids.skip(i + 1));
        match count_segments(&node.chapters[i], level + 1, limit - total) {
            None => {
                return None;
            },
            Some(k) => {
                total = total + k;
            },
        }
        i = i + 1;
    }
    assert(kids.skip(i as int) =~= Seq::<ChapterNode>::empty());
    assert(depth_fits(*node, level as nat));
    Some(total)
}

/// Whether the segments of `nodes`, counted from 1, and every level below them fit in a `usize`.
fn list_segments_fit(nodes: &Vec<ChapterNode>) -> (r: bool)
    ensures
        r == (1 + flat_list(nodes@, Seq::empty(), 0, 1).len() <= usize::MAX && depth_fits_all(nodes@, 0)),
{
    let limit: usize = usize::MAX - 1;
    let mut total: usize = 0;
    let mut i: usize = 0;
    assert(nodes@.skip(0) =~= nodes@);
    while i < nodes.len()
        invariant
            i <= nodes@.len(),
            limit == usize::MAX - 1,
            total <= limit,
            list_count(nodes@) == total + list_count(nodes@.skip(i as int)),
            forall|j: int| 0 <= j < i ==> depth_fits(#[trigger] nodes@[j], 0),
        decreases nodes.len() - i,
    {
        let ghost rest = nodes@.skip(i as int);
        assert(rest[0] == nodes@[i as int]);
        assert(rest.subrange(1, rest.len() as int) =~= nodes@.skip(i + 1));
        match count_segments(&nodes[i], 0, limit - total) {
            None => {
                proof {
                    if depth_fits(nodes@[i as int], 0) {
                        assert(node_count(nodes@[i as int]) > limit - total);
                        assert(list_count(rest) == node_count(rest[0]) + list_count(rest.subrange(1, rest.len() as int)));
                        assert(list_count(nodes@) > limit);
                        lemma_list_len(nodes@, Seq::empty(), 0, 1);
                    } else {
                        assert(!depth_fits_all(nodes@, 0));
                    }
                }
                return false;
            },
            Some(k) => {
                total = total + k;
            },
        }
        i = i + 1;
    }
    assert(nodes@.skip(i as int) =~= Seq::<ChapterNode>::empty());
    proof {
        lemma_list_len(nodes@, Seq::empty(), 0, 1);
    }
    true
}

impl ChapterNode {
    /// Flattens this node and its descendants, numbering the segments from 1.
    pub fn flatten(&self) -> (r: Vec<FlattenedChapter>)
        requires
            1 + flat_node(*self, Seq::empty(), 0, 1).len() <= usize::MAX,
            depth_fits(*self, 0),
        ensures
            flat_views(r@) == flat_node(*self, Seq::empty(), 0, 1),
    {
        let mut result: Vec<FlattenedChapter> = Vec::new();
        let mut chapter_counter: usize = 1;
        self.flatten_recursive(&mut result, &mut chapter_counter, String::new(), 0);
        assert(flat_views(result@) =~= flat_views(Seq::<FlattenedChapter>::empty()) + flat_node(*self, Seq::empty(), 0, 1));
        result
    }

    /// Appends the segments of this node and its descendants, found below
    /// `parent_path` at `level`, to `result`, numbering them from `counter`,
    /// and advances `counter` past them.
    pub fn flatten_recursive(
        &self,
        result: &mut Vec<FlattenedChapter>,
        counter: &mut usize,
        parent_path: String,
        level: usize,
    )
        requires
            *old(counter) + flat_node(*self, parent_path@, level as nat, *old(counter) as nat).len() <= usize::MAX,
            depth_fits(*self, level as nat),
        ensures
            flat_views(final(result)@) == flat_views(old(result)@) + flat_node(*self, parent_path@, level as nat, *old(counter) as nat),
            *final(counter) == *old(counter) + flat_node(*self, parent_path@, level as nat, *old(counter) as nat).len(),
        decreases self,
    {
        let ghost total = flat_node(*self, parent_path@, level as nat, *old(counter) as nat);
        let ghost c0 = *old(counter);
        let ghost r0 = old(result)@;
        let full_path = if parent_path.as_str().is_empty() {
            self.title.clone()
        } else {
            let mut p = parent_path.clone();
            proof {
                reveal_strlit(" > ");
            }
            assert(" > "@ =~= path_sep());
            p.append(" > ");
            p.append(self.title.as_str());
            p
        };
        assert(full_path@ == join_path(parent_path@, self.title@));
        if self.chapters.len() == 0 || self.length_ms > 0 {
            proof {
                reveal_strlit(" > ");
            }
            assert(" > "@ =~= path_sep());
            let joined = replace(full_path.as_str(), " > ", "_");
            let title = sanitize(joined.as_str());
            let path = if self.chapters.len() == 0 {
                full_path.clone()
            } else {
                self.title.clone()
            };
            let seg = FlattenedChapter {
                title,
                full_path: path,
                start_offset_ms: self.start_offset_ms,
                length_ms: self.length_ms,
                start_offset_sec: self.start_offset_sec,
                level,
                chapter_number: *counter,
            };
            assert(seg@ == node_segment(*self, parent_path@, level as nat, c0 as nat));
            result.push(seg);
            *counter += 1;
            assert(flat_views(result@) =~= flat_views(r0) + seq![node_segment(*self, parent_path@, level as nat, c0 as nat)]);
        } else {
            assert(flat_views(result@) =~= flat_views(r0) + Seq::<FlatView>::empty());
        }
        let ghost own_len: nat = (*counter - c0) as nat;
        let mut j: usize = 0;
        assert(self.chapters@.skip(0) =~= self.chapters@);
        while j < self.chapters.len()
            invariant
                0 <= j <= self.chapters@.len(),
                depth_fits(*self, level as nat),
                c0 + total.len() <= usize::MAX,
                total == flat_node(*self, parent_path@, level as nat, c0 as nat),
                full_path@ == join_path(parent_path@, self.title@),
                flat_views(result@) + flat_list(self.chapters@.skip(j as int), full_path@, (level + 1) as nat, *counter as nat)
                    == flat_views(r0) + total,
                *counter + flat_list(self.chapters@.skip(j as int), full_path@, (level + 1) as nat, *counter as nat).len()
                    == c0 + total.len(),
            decreases self.chapters.len() - j,
        {
            let ghost cj = *counter;
            let ghost rj = result@;
            proof {
                lemma_flat_list_unfold(self.chapters@, j as int, full_path@, (level + 1) as nat, cj as nat);
            }
            assert(depth_fits(self.chapters@[j as int], (level + 1) as nat));
            self.chapters[j].flatten_recursive(result, counter, full_path.clone(), level + 1);
            j = j + 1;
            assert(flat_views(result@) + flat_list(self.chapters@.skip(j as int), full_path@, (level + 1) as nat, *counter as nat)
                =~= flat_views(r0) + total);
        }
        assert(self.chapters@.skip(j as int) =~= Seq::<ChapterNode>::empty());
        assert(flat_views(result@) =~= flat_views(r0) + total);
    }
}

} // verus!
