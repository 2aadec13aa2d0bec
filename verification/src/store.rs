//! The document store.
//!
//! A document lives in a loro `LoroDoc`: a tree of blocks, each with a map of properties and a
//! rich text, and side maps for what is document-wide. This file names what such a document
//! holds and wraps the loro calls that read and change it.

use vstd::prelude::*;

verus! {

broadcast use vstd::string::group_string_axioms;

/// The tree container that holds the blocks.
pub const BLOCKS: &'static str = "blocks";

/// The property under which a block keeps its rich text.
pub const TEXT: &'static str = "text";

/// The identity of a block of the tree.
#[derive(Debug, Clone, Copy, PartialEq, Eq, Hash, Structural)]
pub struct BlockId {
    pub peer: u64,
    pub counter: i32,
}

/// A value of the store as plain data; a nested container, a list or a number with a fraction
/// is `Other`.
#[derive(Debug, PartialEq, Eq)]
pub enum Scalar {
    Null,
    Bool(bool),
    Int(i64),
    Text(String),
    Bytes(Vec<u8>),
    Other,
}

/// The mathematical value of a [`Scalar`].
#[verifier::ext_equal]
pub enum ScalarV {
    Null,
    Bool(bool),
    Int(i64),
    Text(Seq<char>),
    Bytes(Seq<u8>),
    Other,
}

impl View for Scalar {
    type V = ScalarV;

    open spec fn view(&self) -> ScalarV {
        match self {
            Scalar::Null => ScalarV::Null,
            Scalar::Bool(b) => ScalarV::Bool(*b),
            Scalar::Int(n) => ScalarV::Int(*n),
            Scalar::Text(s) => ScalarV::Text(s@),
            Scalar::Bytes(b) => ScalarV::Bytes(b@),
            Scalar::Other => ScalarV::Other,
        }
    }
}

pub open spec fn scalar_ov(o: Option<Scalar>) -> Option<ScalarV> {
    match o {
        Some(x) => Some(x@),
        None => None,
    }
}

/// The places of the characters that cursors are bound to.
pub type AnchorsV = Map<loro::cursor::Cursor, int>;

/// Properties or attributes by name.
pub type PropsV = Map<Seq<char>, ScalarV>;

/// The value under `key`, if there is one.
pub open spec fn prop_s(m: PropsV, key: Seq<char>) -> Option<ScalarV> {
    if m.contains_key(key) {
        Some(m[key])
    } else {
        None
    }
}

/// One stretch of rich text under the same attributes.
#[verifier::ext_equal]
pub struct SegV {
    pub text: Seq<char>,
    pub attrs: PropsV,
}

/// One character of rich text.
#[verifier::ext_equal]
pub struct CharV {
    pub c: char,
    pub attrs: PropsV,
}

// ---------------------------------------------------------------- what a loro document holds

/// loro's document.
#[verifier::external_type_specification]
#[verifier::external_body]
pub struct ExLoroDoc(loro::LoroDoc);

/// loro's error.
#[verifier::external_type_specification]
#[verifier::external_body]
pub struct ExLoroError(loro::LoroError);

/// loro's value.
#[verifier::external_type_specification]
#[verifier::external_body]
pub struct ExLoroValue(loro::LoroValue);

/// What a loro value holds, as plain data.
pub uninterp spec fn scalar_s(v: loro::LoroValue) -> ScalarV;

/// The blocks at the root of the tree, in order.
pub uninterp spec fn roots_of(doc: loro::LoroDoc) -> Seq<BlockId>;

/// The properties of each block; those of a block that was never made are empty.
pub uninterp spec fn metas_of(doc: loro::LoroDoc) -> Map<BlockId, Map<Seq<char>, ScalarV>>;

/// The rich text of each block that has one.
pub uninterp spec fn texts_of(doc: loro::LoroDoc) -> Map<BlockId, Seq<SegV>>;

/// The blocks whose text was never marked.
pub uninterp spec fn plain_of(doc: loro::LoroDoc) -> Set<BlockId>;

/// The entries of each side map; a nested map stands as `Other`.
pub uninterp spec fn maps_of(doc: loro::LoroDoc) -> Map<Seq<char>, Map<Seq<char>, ScalarV>>;

/// The entries of the maps nested in each side map.
pub uninterp spec fn nested_of(
    doc: loro::LoroDoc,
) -> Map<Seq<char>, Map<Seq<char>, Map<Seq<char>, ScalarV>>>;

/// The block under which each block below the root stands.
pub uninterp spec fn parents_of(doc: loro::LoroDoc) -> Map<BlockId, BlockId>;

/// The attributes that a text typed at each place of a block's text takes from the marks around
/// that place.
pub uninterp spec fn typed_of(doc: loro::LoroDoc) -> Map<
    BlockId,
    Map<int, Map<Seq<char>, ScalarV>>,
>;

/// The cursors that are bound to a character of a block's text, with the place of that character.
pub uninterp spec fn anchors_of(doc: loro::LoroDoc) -> Map<BlockId, Map<loro::cursor::Cursor, int>>;

/// Whether the document takes edits.
pub uninterp spec fn editable_of(doc: loro::LoroDoc) -> bool;

/// The marks that may be set, and whether each extends over text typed at its end.
pub uninterp spec fn marks_of(doc: loro::LoroDoc) -> Map<Seq<char>, bool>;

/// All of what a loro document holds. Every block has properties and every name a side map, if
/// only empty ones.
#[verifier::ext_equal]
pub struct StoreV {
    pub roots: Seq<BlockId>,
    pub metas: Map<BlockId, PropsV>,
    pub texts: Map<BlockId, Seq<SegV>>,
    pub plain: Set<BlockId>,
    pub typed: Map<BlockId, Map<int, PropsV>>,
    pub anchors: Map<BlockId, AnchorsV>,
    pub maps: Map<Seq<char>, PropsV>,
    pub nested: Map<Seq<char>, Map<Seq<char>, PropsV>>,
    pub parents: Map<BlockId, BlockId>,
    pub editable: bool,
    pub marks: Map<Seq<char>, bool>,
}

/// Whether a block stands in the tree, at the root or below it.
pub open spec fn live_s(s: StoreV, id: BlockId) -> bool {
    s.roots.contains(id) || s.parents.contains_key(id)
}

/// Whether a block stands in the tree and has a text.
pub open spec fn worded_s(s: StoreV, id: BlockId) -> bool {
    live_s(s, id) && s.texts.contains_key(id)
}

/// Whether `q` is `p` without `id` and what stands below it.
pub open spec fn pruned_s(p: Map<BlockId, BlockId>, id: BlockId, q: Map<BlockId, BlockId>) -> bool {
    &&& q.submap_of(p)
    &&& forall|x: BlockId| #[trigger]
        p.contains_key(x) ==> (q.contains_key(x) <==> x != id && p[x] != id && (p.contains_key(p[x])
            ==> q.contains_key(p[x])))
    &&& !p.contains_value(id) ==> q == p.remove(id)
}

/// Whether a value comes back as it was put: loro takes some values of eight bytes for a
/// container.
pub open spec fn faithful_s(v: ScalarV) -> bool {
    !(v matches ScalarV::Bytes(b) && b.len() == 8)
}

/// Whether a map can be nested under `key`: one is, or nothing is in its place.
pub open spec fn nestable_s(s: StoreV, name: Seq<char>, key: Seq<char>) -> bool {
    ||| s.nested[name].contains_key(key)
    ||| !s.maps[name].contains_key(key)
    ||| s.maps[name][key] is Null
}

pub open spec fn store_s(doc: loro::LoroDoc) -> StoreV {
    StoreV {
        roots: roots_of(doc),
        metas: Map::new(|id: BlockId| true, |id: BlockId| metas_of(doc)[id]),
        texts: texts_of(doc),
        plain: plain_of(doc),
        typed: Map::new(|id: BlockId| true, |id: BlockId| typed_of(doc)[id]),
        anchors: Map::new(|id: BlockId| true, |id: BlockId| anchors_of(doc)[id]),
        maps: Map::new(|n: Seq<char>| true, |n: Seq<char>| maps_of(doc)[n]),
        nested: Map::new(|n: Seq<char>| true, |n: Seq<char>| nested_of(doc)[n]),
        parents: parents_of(doc),
        editable: editable_of(doc),
        marks: marks_of(doc),
    }
}

/// No properties.
pub open spec fn no_props_s() -> PropsV {
    Map::empty()
}

/// No attributes at any place.
pub open spec fn no_marks_s() -> Map<int, PropsV> {
    Map::new(|i: int| true, |i: int| no_props_s())
}

/// Whether nothing is in the store, and it takes edits.
pub open spec fn empty_store_s(s: StoreV) -> bool {
    &&& s.editable
    &&& s.parents == Map::<BlockId, BlockId>::empty()
    &&& s.roots == Seq::<BlockId>::empty()
    &&& s.texts == Map::<BlockId, Seq<SegV>>::empty()
    &&& forall|id: BlockId| #[trigger] s.metas[id] == no_props_s()
    &&& forall|n: Seq<char>| #[trigger] s.maps[n] == no_props_s()
    &&& forall|n: Seq<char>| #[trigger] s.nested[n] == Map::<Seq<char>, PropsV>::empty()
}

pub open spec fn char_s(c: char, attrs: PropsV) -> CharV {
    CharV { c, attrs }
}

/// The characters of the first `n` stretches.
pub open spec fn flat_s(v: Seq<SegV>, n: nat) -> Seq<CharV>
    decreases n,
{
    if n == 0 {
        Seq::empty()
    } else {
        let s = v[n - 1];
        flat_s(v, (n - 1) as nat) + Seq::new(s.text.len(), |i: int| char_s(s.text[i], s.attrs))
    }
}

/// The characters of a rich text.
pub open spec fn chars_s(v: Seq<SegV>) -> Seq<CharV> {
    flat_s(v, v.len())
}

/// The characters of a plain text.
pub open spec fn bare_s(text: Seq<char>) -> Seq<CharV> {
    Seq::new(text.len(), |i: int| char_s(text[i], no_props_s()))
}

/// The sequence without `id`.
pub open spec fn without_s(v: Seq<BlockId>, id: BlockId, n: nat) -> Seq<BlockId>
    decreases n,
{
    if n == 0 {
        Seq::empty()
    } else {
        let r = without_s(v, id, (n - 1) as nat);
        if v[n - 1] == id {
            r
        } else {
            r.push(v[n - 1])
        }
    }
}

/// The characters with one attribute set over `start..end`.
pub open spec fn marked_s(
    t: Seq<CharV>,
    start: int,
    end: int,
    key: Seq<char>,
    v: ScalarV,
) -> Seq<CharV> {
    Seq::new(
        t.len(),
        |i: int|
            if start <= i < end {
                CharV { attrs: t[i].attrs.insert(key, v), ..t[i] }
            } else {
                t[i]
            },
    )
}

/// The characters with one attribute cleared over `start..end`.
pub open spec fn unmarked_s(t: Seq<CharV>, start: int, end: int, key: Seq<char>) -> Seq<CharV> {
    Seq::new(
        t.len(),
        |i: int|
            if start <= i < end {
                CharV { attrs: t[i].attrs.remove(key), ..t[i] }
            } else {
                t[i]
            },
    )
}

/// Whether `t2` is `t` with the characters of `text`, under whatever attributes, inserted at `pos`.
pub open spec fn spliced_s(t: Seq<CharV>, pos: int, text: Seq<char>, t2: Seq<CharV>) -> bool {
    &&& t2.len() == t.len() + text.len()
    &&& t2.subrange(0, pos) == t.subrange(0, pos)
    &&& t2.subrange(pos + text.len(), t2.len() as int) == t.subrange(pos, t.len() as int)
    &&& forall|i: int| 0 <= i < text.len() ==> (#[trigger] t2[pos + i]).c == text[i]
}

/// Whether `t2` is `t` with `text` inserted at `pos` under these attributes.
pub open spec fn inserted_s(
    t: Seq<CharV>,
    pos: int,
    text: Seq<char>,
    attrs: PropsV,
    t2: Seq<CharV>,
) -> bool {
    &&& spliced_s(t, pos, text, t2)
    &&& forall|i: int| 0 <= i < text.len() ==> (#[trigger] t2[pos + i]).attrs == attrs
}

/// The attributes or entries that a list of distinct names and values makes.
pub open spec fn entries_s(v: Seq<(String, loro::LoroValue)>, n: nat) -> PropsV
    decreases n,
{
    if n == 0 {
        Map::empty()
    } else {
        entries_s(v, (n - 1) as nat).insert(v[n - 1].0@, scalar_s(v[n - 1].1))
    }
}

pub open spec fn distinct_s(v: Seq<(String, loro::LoroValue)>) -> bool {
    forall|i: int, j: int| 0 <= i < j < v.len() ==> (#[trigger] v[i]).0@ != (#[trigger] v[j]).0@
}

/// One stretch of rich text, as loro reports it.
pub struct RawSeg {
    pub text: String,
    pub attrs: Vec<(String, loro::LoroValue)>,
}

pub open spec fn raw_segs_s(v: Seq<RawSeg>) -> Seq<SegV> {
    Seq::new(
        v.len(),
        |i: int| SegV { text: v[i].text@, attrs: entries_s(v[i].attrs@, v[i].attrs@.len()) },
    )
}

/// A node of the tree, as loro reports it.
#[derive(Debug, Clone, Copy)]
pub struct TreeEntry {
    pub id: BlockId,
    /// Whether it stands at the root.
    pub root: bool,
}

/// Whether some attribute is no plain value.
pub open spec fn other_s(m: PropsV) -> bool {
    exists|k: Seq<char>| m.contains_key(k) && #[trigger] m[k] is Other
}

/// Whether the stretches of a rich text are as long as can be: none is empty, and those that follow
/// each other differ in their attributes, as far as these are plain values.
pub open spec fn stretched_s(v: Seq<SegV>) -> bool {
    &&& forall|i: int| 0 <= i < v.len() ==> (#[trigger] v[i]).text.len() > 0
    &&& forall|i: int, j: int|
        0 <= i && j == i + 1 && j < v.len() ==> (#[trigger] v[i]).attrs != (
        #[trigger] v[j]).attrs || other_s(v[i].attrs)
}

// ---------------------------------------------------------------- values

/// `loro::LoroValue` taken apart: its variant and what that holds, a container, a list, a map or
/// a floating-point number as `Other`.
#[verifier::external_body]
pub(crate) fn scalar_of(v: &loro::LoroValue) -> (r: Scalar)
    ensures
        r@ == scalar_s(*v),
{
    match v {
        loro::LoroValue::Null => Scalar::Null,
        loro::LoroValue::Bool(b) => Scalar::Bool(*b),
        loro::LoroValue::I64(n) => Scalar::Int(*n),
        loro::LoroValue::String(s) => Scalar::Text(s.to_string()),
        loro::LoroValue::Binary(b) => Scalar::Bytes(b.to_vec()),
        _ => Scalar::Other,
    }
}

/// The `loro::LoroValue` that holds a plain value.
#[verifier::external_body]
pub(crate) fn value_of(v: &Scalar) -> (r: loro::LoroValue)
    requires
        !(v is Other),
    ensures
        scalar_s(r) == v@,
{
    match v {
        Scalar::Bool(b) => loro::LoroValue::Bool(*b),
        Scalar::Int(n) => loro::LoroValue::I64(*n),
        Scalar::Text(s) => loro::LoroValue::String(s.as_str().into()),
        Scalar::Bytes(b) => loro::LoroValue::Binary(b.clone().into()),
        _ => loro::LoroValue::Null,
    }
}

// ---------------------------------------------------------------- the document

/// `loro::LoroDoc::new`: a document that holds nothing and takes edits. Which marks it starts
/// with is left open.
#[verifier::external_body]
pub(crate) fn new_doc() -> (r: loro::LoroDoc)
    ensures
        empty_store_s(store_s(r)),
        editable_of(r),
        parents_of(r).dom() == Set::<BlockId>::empty(),
{
    loro::LoroDoc::new()
}

/// `LoroDoc::commit` closes the pending transaction; what the document holds stays.
#[verifier::external_body]
pub(crate) fn commit_doc(doc: &mut loro::LoroDoc)
    ensures
        store_s(*final(doc)) == store_s(*old(doc)),
{
    doc.commit();
}

/// The marks that a list of keys allows; the last entry of a key counts.
pub open spec fn allowed_s(keys: Seq<(String, bool)>, n: nat) -> Map<Seq<char>, bool>
    decreases n,
{
    if n == 0 {
        Map::empty()
    } else {
        allowed_s(keys, (n - 1) as nat).insert(keys[n - 1].0@, keys[n - 1].1)
    }
}

/// `LoroDoc::config_text_style`: the listed marks, and no others, may be set; those with `grows`
/// extend over text typed at their end. What the document holds stays.
#[verifier::external_body]
pub(crate) fn config_marks(doc: &mut loro::LoroDoc, keys: &Vec<(String, bool)>)
    requires
        forall|i: int| 0 <= i < keys@.len() ==> !(#[trigger] keys@[i]).0@.contains(':'),
    ensures
        store_s(*final(doc)) == (StoreV {
            marks: allowed_s(keys@, keys@.len()),
            ..store_s(*old(doc))
        }),
{
    let mut styles = loro::StyleConfigMap::new();
    for (key, grows) in keys {
        let expand = if *grows { loro::ExpandType::After } else { loro::ExpandType::None };
        styles.insert(key.as_str().into(), loro::StyleConfig { expand });
    }
    doc.config_text_style(styles);
}

// ---------------------------------------------------------------- the tree

/// `LoroTree::get_nodes`: the live nodes level by level, so the roots come first and in order.
#[verifier::external_body]
pub(crate) fn tree_entries(doc: &loro::LoroDoc) -> (r: Vec<TreeEntry>)
    ensures
        r@.len() >= roots_of(*doc).len(),
        forall|i: int| 0 <= i < roots_of(*doc).len() ==> (#[trigger] r@[i]).root && r@[i].id
            == roots_of(*doc)[i],
        forall|i: int| roots_of(*doc).len() <= i < r@.len() ==> !(#[trigger] r@[i]).root,
{
    let nodes = doc.get_tree(BLOCKS).get_nodes(false);
    let entry = |n: loro::TreeNode| TreeEntry {
        id: BlockId { peer: n.id.peer, counter: n.id.counter },
        root: matches!(n.parent, loro::TreeParentId::Root),
    };
    nodes.into_iter().map(entry).collect()
}

/// `LoroTree::create`: a new block with no properties, last at the root or under `parent`. It
/// is made where the document takes edits and `parent` stands in the tree. Under a block that was
/// deleted it may be made too; it then stands no more in the tree than that block does.
#[verifier::external_body]
pub(crate) fn tree_create(doc: &mut loro::LoroDoc, parent: Option<BlockId>) -> (r: Result<
    BlockId,
    loro::LoroError,
>)
    ensures
        editable_of(*old(doc)) && (parent matches Some(p) ==> live_s(store_s(*old(doc)), p))
            ==> r is Ok,
        r matches Ok(id) ==> {
            &&& !live_s(store_s(*old(doc)), id)
            &&& !store_s(*old(doc)).texts.contains_key(id)
            &&& store_s(*final(doc)) == (StoreV {
                roots: if parent is None {
                    store_s(*old(doc)).roots.push(id)
                } else {
                    store_s(*old(doc)).roots
                },
                parents: if parent matches Some(p) && live_s(store_s(*old(doc)), p) {
                    store_s(*old(doc)).parents.insert(id, parent->0)
                } else {
                    store_s(*old(doc)).parents
                },
                metas: store_s(*old(doc)).metas.insert(id, Map::empty()),
                ..store_s(*old(doc))
            })
        },
{
    let parent = parent.map(|p| loro::TreeID::new(p.peer, p.counter));
    let id = doc.get_tree(BLOCKS).create(parent)?;
    Ok(BlockId { peer: id.peer, counter: id.counter })
}

/// `LoroTree::create_at`: a new block with no properties, at `index` among the roots; an error
/// where there are fewer than `index` of them, and otherwise none where the document takes edits.
#[verifier::external_body]
pub(crate) fn tree_create_at(doc: &mut loro::LoroDoc, index: usize) -> (r: Result<BlockId, loro::LoroError>)
    ensures
        index > store_s(*old(doc)).roots.len() ==> r is Err,
        editable_of(*old(doc)) && index <= store_s(*old(doc)).roots.len() ==> r is Ok,
        r matches Ok(id) ==> {
            &&& !live_s(store_s(*old(doc)), id)
            &&& !store_s(*old(doc)).texts.contains_key(id)
            &&& store_s(*final(doc)) == (StoreV {
                roots: store_s(*old(doc)).roots.insert(index as int, id),
                metas: store_s(*old(doc)).metas.insert(id, Map::empty()),
                ..store_s(*old(doc))
            })
        },
{
    let id = doc.get_tree(BLOCKS).create_at(loro::TreeParentId::Root, index)?;
    Ok(BlockId { peer: id.peer, counter: id.counter })
}

/// `LoroTree::delete`: the block is no longer in the tree, nor are those below it; the others are
/// as they were. A block that stands in the tree can be deleted where the document takes edits.
#[verifier::external_body]
pub(crate) fn tree_delete(doc: &mut loro::LoroDoc, id: BlockId) -> (r: Result<(), loro::LoroError>)
    ensures
        editable_of(*old(doc)) && live_s(store_s(*old(doc)), id) ==> r is Ok,
        r is Ok ==> ({
            let s = store_s(*old(doc));
            let t = store_s(*final(doc));
            &&& t == (StoreV {
                roots: without_s(s.roots, id, s.roots.len()),
                parents: t.parents,
                metas: t.metas,
                texts: t.texts,
                plain: t.plain,
                typed: t.typed,
                anchors: t.anchors,
                ..s
            })
            &&& t.metas.insert(id, s.metas[id]) == s.metas.insert(id, s.metas[id])
            &&& t.texts.remove(id) == s.texts.remove(id)
            &&& t.plain.insert(id) == s.plain.insert(id)
            &&& t.typed.insert(id, no_marks_s()) == s.typed.insert(id, no_marks_s())
            &&& forall|x: BlockId| #[trigger] live_s(t, x) ==> t.anchors[x] == s.anchors[x]
            &&& pruned_s(s.parents, id, t.parents)
        }),
{
    doc.get_tree(BLOCKS).delete(loro::TreeID::new(id.peer, id.counter))
}

// ---------------------------------------------------------------- properties of a block

/// `LoroMap::get` on the properties of a block; a nested container comes as its id.
#[verifier::external_body]
pub(crate) fn meta_value(doc: &loro::LoroDoc, id: BlockId, key: &str) -> (r: Option<loro::LoroValue>)
    ensures
        r matches Some(v) ==> metas_of(*doc)[id].contains_key(key@) && scalar_s(v)
            == metas_of(*doc)[id][key@],
        r is None ==> !metas_of(*doc)[id].contains_key(key@),
{
    let meta = doc.get_tree(BLOCKS).get_meta(loro::TreeID::new(id.peer, id.counter)).ok()?;
    match meta.get(key)? {
        loro::ValueOrContainer::Value(v) => Some(v),
        loro::ValueOrContainer::Container(c) => Some(
            loro::LoroValue::Container(loro::ContainerTrait::id(&c)),
        ),
    }
}

/// `LoroMap::get_value` on the properties of a block: all of them, in no particular order; a
/// nested container comes as its id.
#[verifier::external_body]
pub(crate) fn meta_values(doc: &loro::LoroDoc, id: BlockId) -> (r: Vec<(String, loro::LoroValue)>)
    ensures
        entries_s(r@, r@.len()) == metas_of(*doc)[id],
        distinct_s(r@),
{
    let meta = doc.get_tree(BLOCKS).get_meta(loro::TreeID::new(id.peer, id.counter));
    match meta.map(|m| m.get_value()) {
        Ok(loro::LoroValue::Map(m)) => m.iter().map(|(k, v)| (k.clone(), v.clone())).collect(),
        _ => Vec::new(),
    }
}

/// `LoroMap::insert` on the properties of a block. The block's text is not reached this way. It
/// succeeds on a block that stands in the tree, where the document takes edits.
#[verifier::external_body]
pub(crate) fn meta_put(doc: &mut loro::LoroDoc, id: BlockId, key: &str, v: loro::LoroValue) -> (r: Result<
    (),
    loro::LoroError,
>)
    requires
        key@ != TEXT@,
        !(scalar_s(v) is Bytes),
    ensures
        editable_of(*old(doc)) && live_s(store_s(*old(doc)), id) && !(scalar_s(v) is Other)
            ==> r is Ok,
        r is Ok ==> store_s(*final(doc)) == (StoreV {
            metas: store_s(*old(doc)).metas.insert(
                id,
                store_s(*old(doc)).metas[id].insert(key@, scalar_s(v)),
            ),
            ..store_s(*old(doc))
        }),
{
    let meta = doc.get_tree(BLOCKS).get_meta(loro::TreeID::new(id.peer, id.counter))?;
    meta.insert(key, v)
}

/// `LoroMap::delete` on the properties of a block. The block's text is not reached this way. It
/// succeeds on a block that stands in the tree, where the document takes edits.
#[verifier::external_body]
pub(crate) fn meta_delete(doc: &mut loro::LoroDoc, id: BlockId, key: &str) -> (r: Result<(), loro::LoroError>)
    requires
        key@ != TEXT@,
    ensures
        editable_of(*old(doc)) && live_s(store_s(*old(doc)), id) ==> r is Ok,
        r is Ok ==> store_s(*final(doc)) == (StoreV {
            metas: store_s(*old(doc)).metas.insert(
                id,
                store_s(*old(doc)).metas[id].remove(key@),
            ),
            ..store_s(*old(doc))
        }),
{
    let meta = doc.get_tree(BLOCKS).get_meta(loro::TreeID::new(id.peer, id.counter))?;
    meta.delete(key)
}

// ---------------------------------------------------------------- rich text

/// `LoroMap::insert_container` with a `LoroText`: the block gets an empty text, never marked. It
/// succeeds on a block that stands in the tree, where the document takes edits, and on no other:
/// loro refuses to edit what was deleted.
#[verifier::external_body]
pub(crate) fn text_create(doc: &mut loro::LoroDoc, id: BlockId) -> (r: Result<(), loro::LoroError>)
    ensures
        editable_of(*old(doc)) && live_s(store_s(*old(doc)), id) ==> r is Ok,
        r is Ok ==> live_s(store_s(*old(doc)), id),
        r is Ok ==> store_s(*final(doc)) == (StoreV {
            metas: store_s(*old(doc)).metas.insert(
                id,
                store_s(*old(doc)).metas[id].insert(TEXT@, ScalarV::Other),
            ),
            texts: store_s(*old(doc)).texts.insert(id, Seq::empty()),
            plain: store_s(*old(doc)).plain.insert(id),
            typed: store_s(*old(doc)).typed.insert(id, no_marks_s()),
            anchors: store_s(*old(doc)).anchors.insert(id, Map::empty()),
            ..store_s(*old(doc))
        }),
{
    let meta = doc.get_tree(BLOCKS).get_meta(loro::TreeID::new(id.peer, id.counter))?;
    meta.insert_container(TEXT, loro::LoroText::new())?;
    Ok(())
}

/// `LoroText::get_richtext_value` on the text of a block: its stretches in order, each with the
/// attributes set over it and as long as can be.
#[verifier::external_body]
pub(crate) fn text_value(doc: &loro::LoroDoc, id: BlockId) -> (r: Option<Vec<RawSeg>>)
    ensures
        r is None ==> !texts_of(*doc).contains_key(id),
        r matches Some(v) ==> texts_of(*doc).contains_key(id) && raw_segs_s(v@) == texts_of(
            *doc,
        )[id],
        r matches Some(v) ==> forall|i: int| 0 <= i < v@.len() ==> distinct_s(
            (#[trigger] v@[i]).attrs@,
        ),
        r matches Some(v) ==> stretched_s(raw_segs_s(v@)),
{
    let meta = doc.get_tree(BLOCKS).get_meta(loro::TreeID::new(id.peer, id.counter)).ok()?;
    let text = meta.get(TEXT)?.into_container().ok()?.into_text().ok()?;
    let seg = |s: &loro::LoroValue| RawSeg {
        text: s.get_by_key("insert").unwrap().as_string().unwrap().to_string(),
        attrs: match s.get_by_key("attributes") {
            Some(a) => a.as_map().unwrap().iter().map(|(k, v)| (k.clone(), v.clone())).collect(),
            None => Vec::new(),
        },
    };
    Some(text.get_richtext_value().as_list().unwrap().iter().map(seg).collect())
}

/// Whether only the text of one block differs.
pub open spec fn only_text_s(s: StoreV, t: StoreV, id: BlockId) -> bool {
    &&& t == (StoreV {
        texts: t.texts,
        plain: t.plain,
        typed: t.typed,
        anchors: t.anchors,
        ..s
    })
    &&& s.texts.contains_key(id)
    &&& t.texts == s.texts.insert(id, t.texts[id])
    &&& t.plain.insert(id) == s.plain.insert(id)
    &&& t.typed.insert(id, no_marks_s()) == s.typed.insert(id, no_marks_s())
    &&& t.anchors.insert(id, Map::empty()) == s.anchors.insert(id, Map::empty())
}

/// Whether every cursor stays with its character where `len` characters are inserted at `pos`.
pub open spec fn moved_on_s(m: AnchorsV, pos: int, len: int, w: AnchorsV) -> bool {
    forall|c: loro::cursor::Cursor| #[trigger]
        m.contains_key(c) ==> w.contains_key(c) && w[c] == (if m[c] < pos {
            m[c]
        } else {
            m[c] + len
        })
}

/// Whether every cursor stays with its character where the characters `pos..pos + len` are
/// deleted and that character is none of them.
pub open spec fn moved_up_s(m: AnchorsV, pos: int, len: int, w: AnchorsV) -> bool {
    forall|c: loro::cursor::Cursor| #[trigger]
        m.contains_key(c) && !(pos <= m[c] < pos + len) ==> w.contains_key(c) && w[c] == (if m[c]
            < pos {
            m[c]
        } else {
            m[c] - len
        })
}

/// `LoroText::insert`: the new characters stand at `pos`, all with the attributes that a text typed
/// there takes; the others keep theirs, and cursors keep to their characters. In a text that was
/// never marked the new ones have none. It succeeds at any place in the text of a block
/// that stands in the tree, its end included, where the document takes edits.
#[verifier::external_body]
pub(crate) fn text_put(doc: &mut loro::LoroDoc, id: BlockId, pos: usize, s: &str) -> (r: Result<
    (),
    loro::LoroError,
>)
    ensures
        editable_of(*old(doc)) && worded_s(store_s(*old(doc)), id) && pos <= chars_s(
            texts_of(*old(doc))[id],
        ).len() ==> r is Ok,
        r is Ok ==> {
            &&& only_text_s(store_s(*old(doc)), store_s(*final(doc)), id)
            &&& pos <= chars_s(texts_of(*old(doc))[id]).len()
            &&& inserted_s(
                chars_s(texts_of(*old(doc))[id]),
                pos as int,
                s@,
                typed_of(*old(doc))[id][pos as int],
                chars_s(texts_of(*final(doc))[id]),
            )
            &&& moved_on_s(
                anchors_of(*old(doc))[id],
                pos as int,
                s@.len() as int,
                anchors_of(*final(doc))[id],
            )
            &&& plain_of(*old(doc)).contains(id) ==> plain_of(*final(doc)).contains(id) && (s@.len()
                > 0 ==> typed_of(*old(doc))[id][pos as int] == no_props_s())
        },
{
    let meta = doc.get_tree(BLOCKS).get_meta(loro::TreeID::new(id.peer, id.counter))?;
    match meta.get(TEXT) {
        Some(loro::ValueOrContainer::Container(loro::Container::Text(t))) => t.insert(pos, s),
        _ => Err(loro::LoroError::ContainersNotFound { containers: Box::new(Vec::new()) }),
    }
}

/// loro's stable position in a text.
#[verifier::external_type_specification]
#[verifier::external_body]
pub struct ExCursor(loro::cursor::Cursor);

/// Which side of a character a cursor leans to.
#[derive(Debug, Clone, Copy, PartialEq, Eq, Structural)]
pub enum Side {
    Left,
    Middle,
    Right,
}

/// Where a cursor stands in a document now, and whether the character it was put at is gone;
/// nothing where its text is.
pub uninterp spec fn cursor_place_s(doc: loro::LoroDoc, c: loro::cursor::Cursor) -> Option<(usize, bool)>;

/// `LoroText::get_cursor` on the text of a block: a cursor at the character `off`, or at the end
/// where there are fewer. Every text gives one. In the document that made it, it stands where it
/// was put; where that is at a character, it is bound to it.
#[verifier::external_body]
pub(crate) fn text_cursor(doc: &loro::LoroDoc, id: BlockId, off: usize, side: Side) -> (r: Option<
    loro::cursor::Cursor,
>)
    ensures
        r is Some <==> texts_of(*doc).contains_key(id),
        r matches Some(c) ==> off < chars_s(texts_of(*doc)[id]).len() ==> anchors_of(
            *doc,
        )[id].contains_key(c) && anchors_of(*doc)[id][c] == off,
        r matches Some(c) ==> cursor_place_s(*doc, c) == Some(
            (
                (if off < chars_s(texts_of(*doc)[id]).len() {
                    off
                } else {
                    chars_s(texts_of(*doc)[id]).len() as usize
                }),
                false,
            ),
        ),
{
    let meta = doc.get_tree(BLOCKS).get_meta(loro::TreeID::new(id.peer, id.counter)).ok()?;
    let text = meta.get(TEXT)?.into_container().ok()?.into_text().ok()?;
    let side = match side {
        Side::Left => loro::cursor::Side::Left,
        Side::Middle => loro::cursor::Side::Middle,
        Side::Right => loro::cursor::Side::Right,
    };
    text.get_cursor(off, side)
}

/// `LoroDoc::get_cursor_pos`: where the cursor stands, by its `current` position; it hands out a
/// cursor to use instead where the character it was put at is gone. An error gives `None`. A cursor
/// that is bound to a character stands where that is.
#[verifier::external_body]
pub(crate) fn cursor_place(doc: &loro::LoroDoc, c: &loro::cursor::Cursor) -> (r: Option<(usize, bool)>)
    ensures
        r == cursor_place_s(*doc, *c),
        forall|id: BlockId| #[trigger]
            anchors_of(*doc)[id].contains_key(*c) ==> r == Some(
                (anchors_of(*doc)[id][*c] as usize, false),
            ),
{
    doc.get_cursor_pos(c).ok().map(|q| (q.current.pos, q.update.is_some()))
}

/// `LoroText::delete`: the characters `pos..pos + len` are gone, the others as they were, and
/// cursors keep to those. It
/// succeeds on a range of the text of a block that stands in the tree, where the document takes
/// edits; nothing can be deleted anywhere.
#[verifier::external_body]
pub(crate) fn text_delete(doc: &mut loro::LoroDoc, id: BlockId, pos: usize, len: usize) -> (r: Result<
    (),
    loro::LoroError,
>)
    ensures
        editable_of(*old(doc)) && worded_s(store_s(*old(doc)), id) && (len == 0 || pos + len
            <= chars_s(texts_of(*old(doc))[id]).len()) ==> r is Ok,
        r is Ok ==> ({
            let t = chars_s(texts_of(*old(doc))[id]);
            &&& only_text_s(store_s(*old(doc)), store_s(*final(doc)), id)
            &&& len > 0 ==> pos + len <= t.len() && chars_s(texts_of(*final(doc))[id])
                == t.subrange(0, pos as int) + t.subrange(pos + len, t.len() as int)
            &&& len == 0 ==> chars_s(texts_of(*final(doc))[id]) == t
            &&& moved_up_s(
                anchors_of(*old(doc))[id],
                pos as int,
                len as int,
                anchors_of(*final(doc))[id],
            )
        }),
{
    let meta = doc.get_tree(BLOCKS).get_meta(loro::TreeID::new(id.peer, id.counter))?;
    match meta.get(TEXT) {
        Some(loro::ValueOrContainer::Container(loro::Container::Text(t))) => t.delete(pos, len),
        _ => Err(loro::LoroError::ContainersNotFound { containers: Box::new(Vec::new()) }),
    }
}

/// `LoroText::mark`: the attribute is set over `start..end`, which must not be empty nor reach
/// past the text; nothing else changes, and cursors stay. Within the text of a block that stands in the tree, a mark
/// that was configured can be set where the document takes edits.
#[verifier::external_body]
pub(crate) fn text_mark(
    doc: &mut loro::LoroDoc,
    id: BlockId,
    start: usize,
    end: usize,
    key: &str,
    v: loro::LoroValue,
) -> (r: Result<(), loro::LoroError>)
    requires
        !(scalar_s(v) is Null),
    ensures
        editable_of(*old(doc)) && worded_s(store_s(*old(doc)), id) && start < end <= chars_s(
            texts_of(*old(doc))[id],
        ).len() && marks_of(*old(doc)).contains_key(key@) && !(scalar_s(v) is Other) ==> r is Ok,
        r is Ok ==> ({
            let t = chars_s(texts_of(*old(doc))[id]);
            &&& only_text_s(store_s(*old(doc)), store_s(*final(doc)), id)
            &&& start < end <= t.len()
            &&& chars_s(texts_of(*final(doc))[id]) == marked_s(
                t,
                start as int,
                end as int,
                key@,
                scalar_s(v),
            )
            &&& anchors_of(*final(doc))[id] == anchors_of(*old(doc))[id]
        }),
{
    let meta = doc.get_tree(BLOCKS).get_meta(loro::TreeID::new(id.peer, id.counter))?;
    match meta.get(TEXT) {
        Some(loro::ValueOrContainer::Container(loro::Container::Text(t))) => t.mark(
            start..end,
            key,
            v,
        ),
        _ => Err(loro::LoroError::ContainersNotFound { containers: Box::new(Vec::new()) }),
    }
}

/// `LoroText::unmark`: the attribute is cleared over `start..end`, which must not be empty nor
/// reach past the text; nothing else changes, and cursors stay. Within the text of a block that stands in the tree, a
/// mark that was configured can be cleared where the document takes edits.
#[verifier::external_body]
pub(crate) fn text_unmark(doc: &mut loro::LoroDoc, id: BlockId, start: usize, end: usize, key: &str) -> (r:
    Result<(), loro::LoroError>)
    ensures
        editable_of(*old(doc)) && worded_s(store_s(*old(doc)), id) && start < end <= chars_s(
            texts_of(*old(doc))[id],
        ).len() && marks_of(*old(doc)).contains_key(key@) ==> r is Ok,
        r is Ok ==> ({
            let t = chars_s(texts_of(*old(doc))[id]);
            &&& only_text_s(store_s(*old(doc)), store_s(*final(doc)), id)
            &&& start < end <= t.len()
            &&& chars_s(texts_of(*final(doc))[id]) == unmarked_s(
                t,
                start as int,
                end as int,
                key@,
            )
            &&& anchors_of(*final(doc))[id] == anchors_of(*old(doc))[id]
        }),
{
    let meta = doc.get_tree(BLOCKS).get_meta(loro::TreeID::new(id.peer, id.counter))?;
    match meta.get(TEXT) {
        Some(loro::ValueOrContainer::Container(loro::Container::Text(t))) => t.unmark(
            start..end,
            key,
        ),
        _ => Err(loro::LoroError::ContainersNotFound { containers: Box::new(Vec::new()) }),
    }
}

// ---------------------------------------------------------------- side maps

/// `LoroMap::get_value` on a side map: its entries, in no particular order.
#[verifier::external_body]
pub(crate) fn map_values(doc: &loro::LoroDoc, name: &str) -> (r: Vec<(String, loro::LoroValue)>)
    requires
        is_side_map_s(name@),
    ensures
        entries_s(r@, r@.len()) == maps_of(*doc)[name@],
        distinct_s(r@),
{
    match doc.get_map(name).get_value() {
        loro::LoroValue::Map(m) => m.iter().map(|(k, v)| (k.clone(), v.clone())).collect(),
        _ => Vec::new(),
    }
}

/// `LoroMap::insert` on a side map; a map nested under the key is replaced. It succeeds where the
/// document takes edits. What eight bytes leave there is left open: loro takes a certain eight
/// bytes for a container.
#[verifier::external_body]
pub(crate) fn map_put(doc: &mut loro::LoroDoc, name: &str, key: &str, v: loro::LoroValue) -> (r: Result<
    (),
    loro::LoroError,
>)
    requires
        is_side_map_s(name@),
    ensures
        editable_of(*old(doc)) && !(scalar_s(v) is Other) ==> r is Ok,
        r is Ok && faithful_s(scalar_s(v)) ==> ({
            let s = store_s(*old(doc));
            store_s(*final(doc)) == (StoreV {
                maps: s.maps.insert(name@, s.maps[name@].insert(key@, scalar_s(v))),
                nested: s.nested.insert(name@, s.nested[name@].remove(key@)),
                ..s
            })
        }),
{
    doc.get_map(name).insert(key, v)
}

/// `LoroMap::delete` on a side map, a nested map included. It succeeds where the document takes
/// edits.
#[verifier::external_body]
pub(crate) fn map_delete(doc: &mut loro::LoroDoc, name: &str, key: &str) -> (r: Result<(), loro::LoroError>)
    requires
        is_side_map_s(name@),
    ensures
        editable_of(*old(doc)) ==> r is Ok,
        r is Ok ==> ({
            let s = store_s(*old(doc));
            store_s(*final(doc)) == (StoreV {
                maps: s.maps.insert(name@, s.maps[name@].remove(key@)),
                nested: s.nested.insert(name@, s.nested[name@].remove(key@)),
                ..s
            })
        }),
{
    doc.get_map(name).delete(key)
}

/// `LoroMap::get_value` on the map nested under `key` of a side map, if there is one.
#[verifier::external_body]
pub(crate) fn nested_values(doc: &loro::LoroDoc, name: &str, key: &str) -> (r: Option<
    Vec<(String, loro::LoroValue)>,
>)
    requires
        is_side_map_s(name@),
    ensures
        r is None ==> !nested_of(*doc)[name@].contains_key(key@),
        r matches Some(v) ==> nested_of(*doc)[name@].contains_key(key@) && entries_s(
            v@,
            v@.len(),
        ) == nested_of(*doc)[name@][key@] && distinct_s(v@),
{
    let inner = doc.get_map(name).get(key)?.into_container().ok()?.into_map().ok()?;
    match inner.get_value() {
        loro::LoroValue::Map(m) => Some(m.iter().map(|(k, v)| (k.clone(), v.clone())).collect()),
        _ => Some(Vec::new()),
    }
}

/// `LoroMap::get_or_create_container`: the map nested under `key` is there, empty if it was not. It
/// succeeds where the document takes edits and nothing else is in the map's place.
#[verifier::external_body]
pub(crate) fn nested_make(doc: &mut loro::LoroDoc, name: &str, key: &str) -> (r: Result<
    (),
    loro::LoroError,
>)
    requires
        is_side_map_s(name@),
    ensures
        editable_of(*old(doc)) && nestable_s(store_s(*old(doc)), name@, key@) ==> r is Ok,
        r is Ok ==> ({
            let s = store_s(*old(doc));
            store_s(*final(doc)) == (StoreV {
                maps: s.maps.insert(name@, s.maps[name@].insert(key@, ScalarV::Other)),
                nested: s.nested.insert(
                    name@,
                    s.nested[name@].insert(key@, inner_s(s.nested[name@], key@)),
                ),
                ..s
            })
        }),
{
    #[allow(deprecated)]
    let made = doc.get_map(name).get_or_create_container(key, loro::LoroMap::new());
    made.map(|_| ())
}

/// `LoroMap::get_or_create_container` and `LoroMap::insert`: one entry of the map nested under
/// `key`, which is made if it is not there. It succeeds where the document takes edits and nothing
/// else is in the map's place.
#[verifier::external_body]
pub(crate) fn nested_put(
    doc: &mut loro::LoroDoc,
    name: &str,
    key: &str,
    field: &str,
    v: loro::LoroValue,
) -> (r: Result<(), loro::LoroError>)
    requires
        is_side_map_s(name@),
        !(scalar_s(v) is Bytes),
    ensures
        editable_of(*old(doc)) && nestable_s(store_s(*old(doc)), name@, key@) && !(scalar_s(
            v,
        ) is Other) ==> r is Ok,
        r is Ok ==> ({
            let s = store_s(*old(doc));
            store_s(*final(doc)) == (StoreV {
                maps: s.maps.insert(name@, s.maps[name@].insert(key@, ScalarV::Other)),
                nested: s.nested.insert(
                    name@,
                    s.nested[name@].insert(
                        key@,
                        inner_s(s.nested[name@], key@).insert(field@, scalar_s(v)),
                    ),
                ),
                ..s
            })
        }),
{
    #[allow(deprecated)]
    let inner = doc.get_map(name).get_or_create_container(key, loro::LoroMap::new())?;
    inner.insert(field, v)
}

/// The map nested under `key`, empty where there is none.
pub open spec fn inner_s(m: Map<Seq<char>, PropsV>, key: Seq<char>) -> PropsV {
    if m.contains_key(key) {
        m[key]
    } else {
        Map::empty()
    }
}

// ---------------------------------------------------------------- names

/// The map of field instructions, by field id.
pub const FIELDS: &'static str = "fields";

/// The map of lists made at runtime: the number format of the first level, by `numId`.
pub const NUM_SYNTH: &'static str = "num_synth";

/// The map of bookmark names, by bookmark id.
pub const BOOKMARKS: &'static str = "bookmarks";

/// The map of hyperlink targets, by hyperlink id.
pub const HYPERLINKS: &'static str = "hyperlinks";

/// The map of edits of style definitions: a nested map of the changed properties, by style id.
pub const STYLE_OVERRIDES: &'static str = "style_overrides";

/// The map of styles added at runtime: a nested map of name and base, by style id.
pub const STYLE_ADDED: &'static str = "style_added";

/// The map of comments, by comment id.
pub const COMMENTS: &'static str = "comments";

/// The map of section state that no paragraph carries; `final` holds the last section.
pub const SECTPR: &'static str = "sectpr";

/// The map of verbatim run markup, by id.
pub const RAWXML: &'static str = "rawxml";

/// The map of the openings of block wrappers, by id.
pub const BLOCKWRAP: &'static str = "blockwrap";

/// The map of picture placements: a nested map of fields, by picture id.
pub const IMAGES: &'static str = "images";

/// The map of picture bytes, by part name.
pub const MEDIA: &'static str = "media";

/// Whether `n` names a side map.
pub open spec fn is_side_map_s(n: Seq<char>) -> bool {
    n == FIELDS@ || n == NUM_SYNTH@ || n == BOOKMARKS@ || n == HYPERLINKS@ || n
        == STYLE_OVERRIDES@ || n == STYLE_ADDED@ || n == COMMENTS@ || n == SECTPR@ || n == RAWXML@
        || n == BLOCKWRAP@ || n == IMAGES@ || n == MEDIA@
}

} // verus!
