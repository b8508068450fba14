//! Storage: workspace paths, the in-memory part of the structure cache,
//! and the serialisable form of document trees.
//!
//! Reading and writing files is the caller's part; this module decides
//! where things go and what is kept.

use vstd::prelude::*;
use crate::document::StructureNodeDto;
use crate::node::PageNode;
use crate::text::{chars_eq, extend_str, str_chars, string_from};

verus! {

// ------------------------------------------------------------------
// Paths
// ------------------------------------------------------------------

/// `base` joined with `part` as `Path::join` does on Unix: an absolute
/// `part` replaces `base`; otherwise `part` follows `base`, with a `/`
/// between them unless `base` is empty or already ends with one.
pub open spec fn path_join(base: Seq<char>, part: Seq<char>) -> Seq<char> {
    if part.len() > 0 && part[0] == '/' {
        part
    } else if base.len() == 0 || base.last() == '/' {
        base + part
    } else {
        base + "/"@ + part
    }
}

/// Joins two paths (see [`path_join`]).
pub fn join_path(base: &str, part: &str) -> (r: String)
    ensures
        r@ == path_join(base@, part@),
{
    let b = str_chars(base);
    let p = str_chars(part);
    let mut out: Vec<char> = Vec::new();
    if p.len() > 0 && p[0] == '/' {
        extend_str(&mut out, part);
    } else if b.len() == 0 || b[b.len() - 1] == '/' {
        extend_str(&mut out, base);
        extend_str(&mut out, part);
    } else {
        extend_str(&mut out, base);
        extend_str(&mut out, "/");
        extend_str(&mut out, part);
    }
    assert(out@ =~= path_join(base@, part@));
    string_from(&out)
}

/// The file name of a document or cache entry: `{id}.json`.
pub open spec fn json_file(id: Seq<char>) -> Seq<char> {
    id + ".json"@
}

fn json_file_name(id: &str) -> (r: String)
    ensures
        r@ == json_file(id@),
{
    let mut out: Vec<char> = Vec::new();
    extend_str(&mut out, id);
    extend_str(&mut out, ".json");
    string_from(&out)
}

/// A workspace directory holding `_meta.json` and one `{id}.json` file per
/// document.
pub struct Workspace {
    /// The directory.
    pub path: String,
}

impl Workspace {
    /// A workspace in the given directory.
    pub fn new(path: &str) -> (r: Workspace)
        ensures
            r.path@ == path@,
    {
        Workspace { path: string_from(&str_chars(path)) }
    }

    /// The path of the metadata file.
    pub fn meta_path(&self) -> (r: String)
        ensures
            r@ == path_join(self.path@, "_meta.json"@),
    {
        join_path(self.path.as_str(), "_meta.json")
    }

    /// The path of a document's file.
    pub fn doc_path(&self, doc_id: &str) -> (r: String)
        ensures
            r@ == path_join(self.path@, json_file(doc_id@)),
    {
        let name = json_file_name(doc_id);
        join_path(self.path.as_str(), name.as_str())
    }
}

/// The document id of a workspace file name: the name without `.json`,
/// for a JSON file other than `_meta.json`.
pub open spec fn doc_id_of_file(name: Seq<char>) -> Option<Seq<char>> {
    if name.len() >= 5 && name.skip(name.len() - 5) == ".json"@ && name != "_meta.json"@ {
        Some(name.take(name.len() - 5))
    } else {
        None
    }
}

/// The document id of a workspace file name (see [`doc_id_of_file`]).
pub fn document_id_of_file(name: &str) -> (r: Option<String>)
    ensures
        match doc_id_of_file(name@) {
            Some(id) => r matches Some(s) && s@ == id,
            None => r is None,
        },
{
    let v = str_chars(name);
    let suffix = str_chars(".json");
    let meta = str_chars("_meta.json");
    proof {
        reveal_strlit(".json");
    }
    if v.len() >= 5 {
        let tail = crate::text::sub_chars(&v, v.len() - 5, v.len());
        assert(v@.subrange(v.len() - 5, v.len() as int) =~= v@.skip(v.len() - 5));
        if crate::text::chars_eq(&tail, &suffix) && !crate::text::chars_eq(&v, &meta) {
            let id = crate::text::sub_chars(&v, 0, v.len() - 5);
            assert(v@.subrange(0, v.len() - 5) =~= v@.take(v.len() - 5));
            return Some(string_from(&id));
        }
    }
    None
}

// ------------------------------------------------------------------
// Structure cache
// ------------------------------------------------------------------

/// The keys of cache entries.
pub open spec fn entry_keys(entries: Seq<(String, StructureNodeDto)>) -> Seq<Seq<char>> {
    entries.map_values(|e: (String, StructureNodeDto)| e.0@)
}

/// Whether no key occurs twice.
pub open spec fn keys_distinct(keys: Seq<Seq<char>>) -> bool {
    forall|i: int, j: int| 0 <= i < j < keys.len() ==> keys[i] != keys[j]
}

/// The structure held under `id`: that of the first entry with that key.
pub open spec fn cached_value(entries: Seq<(String, StructureNodeDto)>, id: Seq<char>) -> Option<
    StructureNodeDto,
>
    decreases entries.len(),
{
    if entries.len() == 0 {
        None
    } else if entries[0].0@ == id {
        Some(entries[0].1)
    } else {
        cached_value(entries.drop_first(), id)
    }
}

/// The entry at `i` is the first with key `id`, so its structure is what
/// is held under `id`.
pub proof fn lemma_cached_value_at(entries: Seq<(String, StructureNodeDto)>, id: Seq<char>, i: int)
    requires
        0 <= i < entries.len(),
        entries[i].0@ == id,
        forall|k: int| 0 <= k < i ==> (#[trigger] entries[k]).0@ != id,
    ensures
        cached_value(entries, id) == Some(entries[i].1),
    decreases i,
{
    if i > 0 {
        assert forall|k: int| 0 <= k < i - 1 implies (#[trigger] entries.drop_first()[k]).0@ != id by {
            assert(entries.drop_first()[k] == entries[k + 1]);
        }
        lemma_cached_value_at(entries.drop_first(), id, i - 1);
    }
}

/// Nothing is held under a key that no entry has.
pub proof fn lemma_cached_value_none(entries: Seq<(String, StructureNodeDto)>, id: Seq<char>)
    requires
        forall|k: int| 0 <= k < entries.len() ==> (#[trigger] entries[k]).0@ != id,
    ensures
        cached_value(entries, id) is None,
    decreases entries.len(),
{
    if entries.len() > 0 {
        assert forall|k: int| 0 <= k < entries.len() - 1 implies (#[trigger] entries.drop_first()[k]).0@ != id by {
            assert(entries.drop_first()[k] == entries[k + 1]);
        }
        lemma_cached_value_none(entries.drop_first(), id);
    }
}

/// Two entry lists with the same keys, and the same structures under
/// `id`, hold the same structure under `id`.
pub proof fn lemma_cached_value_same(
    a: Seq<(String, StructureNodeDto)>,
    b: Seq<(String, StructureNodeDto)>,
    id: Seq<char>,
)
    requires
        a.len() == b.len(),
        forall|j: int| 0 <= j < a.len() ==> (#[trigger] a[j]).0@ == b[j].0@,
        forall|j: int| 0 <= j < a.len() && (#[trigger] a[j]).0@ == id ==> a[j].1 == b[j].1,
    ensures
        cached_value(a, id) == cached_value(b, id),
    decreases a.len(),
{
    if a.len() > 0 {
        assert forall|j: int| 0 <= j < a.len() - 1 implies (#[trigger] a.drop_first()[j]).0@ == b.drop_first()[j].0@ by {
            assert(a.drop_first()[j] == a[j + 1]);
            assert(b.drop_first()[j] == b[j + 1]);
        }
        assert forall|j: int| 0 <= j < a.len() - 1 && (#[trigger] a.drop_first()[j]).0@ == id implies a.drop_first()[j].1 == b.drop_first()[j].1 by {
            assert(a.drop_first()[j] == a[j + 1]);
            assert(b.drop_first()[j] == b[j + 1]);
        }
        lemma_cached_value_same(a.drop_first(), b.drop_first(), id);
    }
}

/// Adding an entry under another key leaves what is held under `id`.
pub proof fn lemma_cached_value_push(
    entries: Seq<(String, StructureNodeDto)>,
    x: (String, StructureNodeDto),
    id: Seq<char>,
)
    requires
        x.0@ != id,
    ensures
        cached_value(entries.push(x), id) == cached_value(entries, id),
    decreases entries.len(),
{
    let p = entries.push(x);
    if entries.len() > 0 {
        assert(p[0] == entries[0]);
        assert(p.drop_first() =~= entries.drop_first().push(x));
        lemma_cached_value_push(entries.drop_first(), x, id);
        if entries[0].0@ != id {
            assert(cached_value(p, id) == cached_value(p.drop_first(), id));
            assert(cached_value(entries, id) == cached_value(entries.drop_first(), id));
        }
    } else {
        assert(p[0] == x);
        assert(p.drop_first() =~= Seq::<(String, StructureNodeDto)>::empty());
        assert(cached_value(p, id) == cached_value(p.drop_first(), id));
        assert(cached_value(p.drop_first(), id) is None);
    }
}

/// The keys after remembering under `id`: unchanged when `id` was there;
/// otherwise `id` added as the newest, and the oldest dropped when that
/// makes more than `max`.
pub open spec fn keys_after_remember(after: Seq<Seq<char>>, before: Seq<Seq<char>>, id: Seq<char>, max: usize) -> bool {
    if before.contains(id) {
        after == before
    } else if before.len() + 1 > max {
        after == before.push(id).drop_first()
    } else {
        after == before.push(id)
    }
}

/// Cache of document structures: a directory for the files and, in
/// memory, up to `max_memory_items` structures by document id, oldest
/// first.
pub struct DocumentCache {
    /// The cache directory.
    pub cache_dir: String,
    /// Cached structures by document id, oldest first.
    pub entries: Vec<(String, StructureNodeDto)>,
    /// Maximum number of structures kept in memory.
    pub max_memory_items: usize,
}

impl DocumentCache {
    /// Whether no document id occurs twice in memory.
    pub open spec fn wf(&self) -> bool {
        keys_distinct(entry_keys(self.entries@))
    }

    /// An empty cache in the given directory.
    pub fn new(cache_dir: &str, max_memory_items: usize) -> (r: DocumentCache)
        ensures
            r.cache_dir@ == cache_dir@,
            r.entries@.len() == 0,
            r.max_memory_items == max_memory_items,
            r.wf(),
    {
        DocumentCache {
            cache_dir: string_from(&str_chars(cache_dir)),
            entries: Vec::new(),
            max_memory_items,
        }
    }

    /// The path of a document's cache file.
    pub fn cache_path(&self, doc_id: &str) -> (r: String)
        ensures
            r@ == path_join(self.cache_dir@, json_file(doc_id@)),
    {
        let name = json_file_name(doc_id);
        join_path(self.cache_dir.as_str(), name.as_str())
    }

    /// The position of a document's structure in memory.
    pub fn position(&self, doc_id: &str) -> (r: Option<usize>)
        ensures
            match r {
                Some(i) => i < self.entries@.len() && self.entries@[i as int].0@ == doc_id@
                    && forall|k: int| 0 <= k < i ==> (#[trigger] self.entries@[k]).0@ != doc_id@,
                None => forall|i: int| 0 <= i < self.entries@.len() ==> (#[trigger] self.entries@[i]).0@ != doc_id@,
            },
    {
        let want = str_chars(doc_id);
        let mut i: usize = 0;
        while i < self.entries.len()
            invariant
                i <= self.entries.len(),
                want@ == doc_id@,
                forall|k: int| 0 <= k < i ==> (#[trigger] self.entries@[k]).0@ != doc_id@,
            decreases self.entries.len() - i,
        {
            if chars_eq(&str_chars(self.entries[i].0.as_str()), &want) {
                return Some(i);
            }
            i = i + 1;
        }
        None
    }

    /// Keeps a structure in memory under the document id: it replaces the
    /// one held under that id, or is added as the newest; when that makes
    /// more than `max_memory_items`, the oldest is dropped.
    pub fn remember(&mut self, doc_id: &str, structure: StructureNodeDto)
        requires
            old(self).wf(),
        ensures
            final(self).wf(),
            final(self).cache_dir == old(self).cache_dir,
            final(self).max_memory_items == old(self).max_memory_items,
            keys_after_remember(entry_keys(final(self).entries@), entry_keys(old(self).entries@), doc_id@, old(self).max_memory_items),
            old(self).entries@.len() <= old(self).max_memory_items ==> final(self).entries@.len() <= final(self).max_memory_items,
            old(self).max_memory_items >= 1 ==> cached_value(final(self).entries@, doc_id@) == Some(structure),
            forall|k: Seq<char>| k != doc_id@ && #[trigger] entry_keys(final(self).entries@).contains(k)
                ==> cached_value(final(self).entries@, k) == cached_value(old(self).entries@, k),
    {
        let ghost keys0 = entry_keys(self.entries@);
        let ghost e0 = self.entries@;
        let ghost s0 = structure;
        match self.position(doc_id) {
            Some(i) => {
                assert(keys0[i as int] == doc_id@);
                assert(keys0.contains(doc_id@));
                let (k, _) = self.entries.remove(i);
                self.entries.insert(i, (k, structure));
                assert(entry_keys(self.entries@) =~= keys0);
                proof {
                    let e1 = self.entries@;
                    assert(e1 =~= e0.update(i as int, (k, s0)));
                    lemma_cached_value_at(e1, doc_id@, i as int);
                    assert forall|q: Seq<char>| q != doc_id@ && #[trigger] entry_keys(e1).contains(q) implies cached_value(e1, q) == cached_value(e0, q) by {
                        assert forall|j: int| 0 <= j < e1.len() implies (#[trigger] e1[j]).0@ == e0[j].0@ by {
                            assert(entry_keys(e1)[j] == keys0[j]);
                        }
                        lemma_cached_value_same(e1, e0, q);
                    }
                }
            },
            None => {
                proof {
                    assert forall|j: int| 0 <= j < keys0.len() implies keys0[j] != doc_id@ by {
                        assert(keys0[j] == self.entries@[j].0@);
                    }
                    assert(!keys0.contains(doc_id@));
                }
                let key = string_from(&str_chars(doc_id));
                let ghost x = (key, s0);
                self.entries.push((key, structure));
                assert(entry_keys(self.entries@) =~= keys0.push(doc_id@));
                proof {
                    let e1 = self.entries@;
                    assert(e1 =~= e0.push(x));
                    assert forall|k: int| 0 <= k < e0.len() implies (#[trigger] e1[k]).0@ != doc_id@ by {
                        assert(e1[k] == e0[k]);
                        assert(keys0[k] == e0[k].0@);
                    }
                    lemma_cached_value_at(e1, doc_id@, e0.len() as int);
                    assert forall|q: Seq<char>| q != doc_id@ implies cached_value(e1, q) == cached_value(e0, q) by {
                        lemma_cached_value_push(e0, x, q);
                    }
                }
                if self.entries.len() > self.max_memory_items {
                    let ghost before = self.entries@;
                    self.entries.remove(0);
                    assert(entry_keys(self.entries@) =~= entry_keys(before).drop_first());
                    proof {
                        let e2 = self.entries@;
                        assert(e2 =~= before.drop_first());
                        if self.max_memory_items >= 1 {
                            assert(before.len() >= 2);
                            assert(before[0].0@ == keys0[0]);
                            assert(cached_value(before, doc_id@) == cached_value(e2, doc_id@));
                        }
                        assert forall|q: Seq<char>| q != doc_id@ && #[trigger] entry_keys(e2).contains(q) implies cached_value(e2, q) == cached_value(e0, q) by {
                            let j = choose|j: int| 0 <= j < entry_keys(e2).len() && entry_keys(e2)[j] == q;
                            assert(entry_keys(before)[j + 1] == q);
                            assert(entry_keys(before)[0] != entry_keys(before)[j + 1]);
                            assert(before[0].0@ != q);
                        }
                    }
                }
            },
        }
    }

    /// The structure held in memory for a document, if any.
    pub fn cached(&self, doc_id: &str) -> (r: Option<&StructureNodeDto>)
        ensures
            match cached_value(self.entries@, doc_id@) {
                Some(v) => r matches Some(s) && *s == v,
                None => r is None,
            },
            r is None <==> !entry_keys(self.entries@).contains(doc_id@),
    {
        match self.position(doc_id) {
            Some(i) => {
                proof {
                    lemma_cached_value_at(self.entries@, doc_id@, i as int);
                    assert(entry_keys(self.entries@)[i as int] == doc_id@);
                }
                Some(&self.entries[i].1)
            },
            None => {
                proof {
                    lemma_cached_value_none(self.entries@, doc_id@);
                    if entry_keys(self.entries@).contains(doc_id@) {
                        let j = choose|j: int| 0 <= j < entry_keys(self.entries@).len() && entry_keys(self.entries@)[j] == doc_id@;
                        assert(self.entries@[j].0@ == doc_id@);
                    }
                }
                None
            },
        }
    }

    /// Drops a document's structure from memory.
    pub fn forget(&mut self, doc_id: &str)
        requires
            old(self).wf(),
        ensures
            final(self).wf(),
            final(self).cache_dir == old(self).cache_dir,
            final(self).max_memory_items == old(self).max_memory_items,
            !entry_keys(final(self).entries@).contains(doc_id@),
            forall|k: Seq<char>| k != doc_id@ ==> (entry_keys(final(self).entries@).contains(k) <==> entry_keys(old(self).entries@).contains(k)),
    {
        let ghost keys0 = entry_keys(self.entries@);
        match self.position(doc_id) {
            Some(i) => {
                self.entries.remove(i);
                proof {
                    assert(keys0[i as int] == doc_id@);
                    let keys1 = entry_keys(self.entries@);
                    assert(keys1 =~= keys0.remove(i as int));
                    assert forall|j: int| 0 <= j < keys1.len() implies keys1[j] != doc_id@ by {
                        if j < i {
                            assert(keys1[j] == keys0[j]);
                        } else {
                            assert(keys1[j] == keys0[j + 1]);
                            assert(keys0[i as int] != keys0[j + 1]);
                        }
                    }
                    assert forall|k: Seq<char>| k != doc_id@ implies (keys1.contains(k) <==> keys0.contains(k)) by {
                        if keys0.contains(k) {
                            let j = choose|j: int| 0 <= j < keys0.len() && keys0[j] == k;
                            if j < i {
                                assert(keys1[j] == k);
                            } else if j > i {
                                assert(keys1[j - 1] == k);
                            }
                        }
                        if keys1.contains(k) {
                            let j = choose|j: int| 0 <= j < keys1.len() && keys1[j] == k;
                            if j < i {
                                assert(keys0[j] == k);
                            } else {
                                assert(keys0[j + 1] == k);
                            }
                        }
                    }
                }
            },
            None => {
                proof {
                    if keys0.contains(doc_id@) {
                        let j = choose|j: int| 0 <= j < keys0.len() && keys0[j] == doc_id@;
                        assert(self.entries@[j].0@ == doc_id@);
                    }
                }
            },
        }
    }

    /// Drops every structure from memory.
    pub fn forget_all(&mut self)
        ensures
            final(self).entries@.len() == 0,
            final(self).wf(),
            final(self).cache_dir == old(self).cache_dir,
            final(self).max_memory_items == old(self).max_memory_items,
    {
        self.entries.clear();
    }
}

/// Remembering a structure keeps the cache within its bound: the number of
/// structures in memory never goes above `max_memory_items` once it is
/// within it.
pub proof fn lemma_cache_bounded(before: DocumentCache, after: DocumentCache, doc_id: Seq<char>)
    requires
        before.entries@.len() <= before.max_memory_items,
        after.max_memory_items == before.max_memory_items,
        keys_after_remember(entry_keys(after.entries@), entry_keys(before.entries@), doc_id, before.max_memory_items),
    ensures
        after.entries@.len() <= after.max_memory_items,
{
    assert(entry_keys(after.entries@).len() == after.entries@.len());
    assert(entry_keys(before.entries@).len() == before.entries@.len());
}

// ------------------------------------------------------------------
// Serialisable trees
// ------------------------------------------------------------------

/// The serialisable form of a tree node: title, text, summary, depth and
/// children.
pub struct NodeDto {
    /// Title.
    pub title: String,
    /// Text.
    pub content: String,
    /// Summary.
    pub summary: String,
    /// Depth.
    pub depth: usize,
    /// Children.
    pub children: Vec<NodeDto>,
}

/// Whether `d` is the serialisable form of `n`.
pub open spec fn is_dto_of(d: NodeDto, n: PageNode) -> bool
    decreases n,
{
    &&& d.title@ == n.title@
    &&& d.content@ == n.content@
    &&& d.summary@ == n.summary@
    &&& d.depth == n.depth
    &&& d.children@.len() == n.children@.len()
    &&& forall|i: int| 0 <= i < n.children@.len() ==> is_dto_of(#[trigger] d.children@[i], n.children@[i])
}

/// Whether `n` is the node rebuilt from `d`: the same title, text, summary,
/// depth and children, and no pages or identifiers.
pub open spec fn is_node_of(n: PageNode, d: NodeDto) -> bool
    decreases d,
{
    &&& n.title@ == d.title@
    &&& n.content@ == d.content@
    &&& n.summary@ == d.summary@
    &&& n.depth == d.depth
    &&& n.start_page is None
    &&& n.end_page is None
    &&& n.node_id is None
    &&& n.physical_index is None
    &&& n.children@.len() == d.children@.len()
    &&& forall|i: int| 0 <= i < d.children@.len() ==> is_node_of(#[trigger] n.children@[i], d.children@[i])
}

impl NodeDto {
    /// The serialisable form of a tree.
    pub fn from_node(node: &PageNode) -> (r: NodeDto)
        ensures
            is_dto_of(r, *node),
        decreases node,
    {
        let mut children: Vec<NodeDto> = Vec::new();
        let mut i: usize = 0;
        while i < node.children.len()
            invariant
                i <= node.children.len(),
                children@.len() == i,
                forall|k: int| 0 <= k < i ==> is_dto_of(#[trigger] children@[k], node.children@[k]),
            decreases node.children.len() - i,
        {
            assert(decreases_to!(*node => node.children@[i as int]));
            children.push(NodeDto::from_node(&node.children[i]));
            i = i + 1;
        }
        NodeDto {
            title: node.title.clone(),
            content: node.content.clone(),
            summary: node.summary.clone(),
            depth: node.depth,
            children,
        }
    }

    /// The tree rebuilt from its serialisable form.
    pub fn to_node(self) -> (r: PageNode)
        ensures
            is_node_of(r, self),
    {
        build_node(&self)
    }
}

fn build_node(d: &NodeDto) -> (r: PageNode)
    ensures
        is_node_of(r, *d),
    decreases d,
{
    let mut node = PageNode::new(d.title.as_str(), d.content.as_str());
    node.summary = d.summary.clone();
    node.depth = d.depth;
    let mut built: Vec<PageNode> = Vec::new();
    let mut i: usize = 0;
    while i < d.children.len()
        invariant
            i <= d.children.len(),
            built@.len() == i,
            forall|k: int| 0 <= k < i ==> is_node_of(#[trigger] built@[k], d.children@[k]),
        decreases d.children.len() - i,
    {
        assert(decreases_to!(*d => d.children@[i as int]));
        built.push(build_node(&d.children[i]));
        i = i + 1;
    }
    node.children = built;
    node
}

/// Whether two trees agree on titles, texts, summaries, depths and shape.
pub open spec fn same_outline(a: PageNode, b: PageNode) -> bool
    decreases b,
{
    &&& a.title@ == b.title@
    &&& a.content@ == b.content@
    &&& a.summary@ == b.summary@
    &&& a.depth == b.depth
    &&& a.children@.len() == b.children@.len()
    &&& forall|i: int| 0 <= i < b.children@.len() ==> same_outline(#[trigger] a.children@[i], b.children@[i])
}

/// What a tree is saved as is what it is loaded back as: rebuilding a
/// tree from its serialisable form gives the same titles, texts,
/// summaries, depths and shape.
pub proof fn lemma_dto_round_trip(n: PageNode, d: NodeDto, m: PageNode)
    requires
        is_dto_of(d, n),
        is_node_of(m, d),
    ensures
        same_outline(m, n),
    decreases n,
{
    assert forall|i: int| 0 <= i < n.children@.len() implies same_outline(#[trigger] m.children@[i], n.children@[i]) by {
        assert(is_dto_of(d.children@[i], n.children@[i]));
        assert(is_node_of(m.children@[i], d.children@[i]));
        assert(decreases_to!(n => n.children@[i]));
        lemma_dto_round_trip(n.children@[i], d.children@[i], m.children@[i]);
    }
}

} // verus!
