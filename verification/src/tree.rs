//! Assembly of a directory of template documents into a tree of scopes that
//! mirrors the subdirectories: each file becomes one compiled type in the
//! current scope, each subdirectory becomes a child scope.

use vstd::prelude::*;

use crate::compile::{compile, ConversionError, derive_type_name, file_stem, file_stem_of,
    GeneratedType, render_body_of, type_name_of};
use crate::header::{first_empty_type, header_well_formed, scan_candidates, HeaderExtractionError};
use crate::render::str_eq;

verus! {

/// Why a directory could not be converted.
#[derive(Debug, PartialEq, Eq, Structural, Clone, Copy)]
pub enum DirectoryConversionError {
    /// The path handed to the directory entry point is not a directory.
    IsNotADirectory,
}

/// One entry of an in-memory directory listing: a file with its name and
/// text, or a subdirectory with its name and its own listing.
pub enum DirEntry {
    File { name: String, contents: String },
    Dir { name: String, entries: Vec<DirEntry> },
}

/// One item of a scope: a compiled type, or a named child scope.
pub enum ScopeItem {
    Type(GeneratedType),
    Child(String, ScopeNode),
}

/// A namespace node: the ordered items placed in it during assembly.
pub struct ScopeNode {
    pub items: Vec<ScopeItem>,
}

// ---------------------------------------------------------------------------
// Mathematical models of the trees
// ---------------------------------------------------------------------------
/// The model of a compiled type.
pub struct TypeV {
    pub name: Seq<char>,
    pub fields: Seq<(Seq<char>, Seq<char>)>,
    pub body: Seq<char>,
}

/// The model of a directory entry.
pub enum EntryV {
    File { name: Seq<char>, contents: Seq<char> },
    Dir { name: Seq<char>, entries: Seq<EntryV> },
}

/// The model of a scope item.
pub enum ItemV {
    Type(TypeV),
    Child(Seq<char>, NodeV),
}

/// The model of a scope node.
pub struct NodeV {
    pub items: Seq<ItemV>,
}

/// The model of a `GeneratedType`.
pub open spec fn type_view(gt: GeneratedType) -> TypeV {
    TypeV { name: gt.name@, fields: gt.fields.deep_view(), body: gt.render_body@ }
}

/// The model of a directory entry.
pub open spec fn entry_view(e: DirEntry) -> EntryV
    decreases e,
{
    match e {
        DirEntry::File { name, contents } => EntryV::File { name: name@, contents: contents@ },
        DirEntry::Dir { name, entries } => EntryV::Dir {
            name: name@,
            entries: entries_view(entries@),
        },
    }
}

/// The models of a listing's entries, in order.
pub open spec fn entries_view(s: Seq<DirEntry>) -> Seq<EntryV>
    decreases s,
{
    if s.len() == 0 {
        Seq::empty()
    } else {
        seq![entry_view(s[0])] + entries_view(s.skip(1))
    }
}

pub proof fn lemma_entries_view(s: Seq<DirEntry>)
    ensures
        entries_view(s).len() == s.len(),
        forall|k: int| 0 <= k < s.len() ==> entries_view(s)[k] == entry_view(s[k]),
    decreases s,
{
    if s.len() > 0 {
        lemma_entries_view(s.skip(1));
    }
}

/// The model of a scope item.
pub open spec fn item_view(it: ScopeItem) -> ItemV
    decreases it,
{
    match it {
        ScopeItem::Type(gt) => ItemV::Type(type_view(gt)),
        ScopeItem::Child(name, node) => ItemV::Child(name@, node_view(node)),
    }
}

/// The model of a scope node.
pub open spec fn node_view(n: ScopeNode) -> NodeV
    decreases n,
{
    NodeV { items: items_view(n.items@) }
}

/// The models of a scope's items, in order.
pub open spec fn items_view(s: Seq<ScopeItem>) -> Seq<ItemV>
    decreases s,
{
    if s.len() == 0 {
        Seq::empty()
    } else {
        seq![item_view(s[0])] + items_view(s.skip(1))
    }
}

pub proof fn lemma_items_view(s: Seq<ScopeItem>)
    ensures
        items_view(s).len() == s.len(),
        forall|k: int| 0 <= k < s.len() ==> items_view(s)[k] == item_view(s[k]),
    decreases s,
{
    if s.len() > 0 {
        lemma_items_view(s.skip(1));
    }
}

// ---------------------------------------------------------------------------
// Assembly, modelled
// ---------------------------------------------------------------------------
/// The model of one compiled file: the type name comes from the file name,
/// the fields from the header, the render body from the stripped, minified,
/// substituted text.
pub open spec fn compile_type_v(name: Seq<char>, contents: Seq<char>) -> TypeV {
    TypeV {
        name: type_name_of(name),
        fields: scan_candidates(contents, 0),
        body: render_body_of(contents),
    }
}

/// The error a file entry produces, when it produces one.
pub open spec fn file_error(name: Seq<char>, contents: Seq<char>) -> Option<ConversionError> {
    if name.len() == 0 {
        Some(ConversionError::FileNameInvalid)
    } else if !header_well_formed(contents) {
        Some(
            ConversionError::Header(
                HeaderExtractionError::MalformedFieldType {
                    line: (first_empty_type(scan_candidates(contents, 0)) + 1) as usize,
                },
            ),
        )
    } else {
        None
    }
}

/// The index of the first child item named `name`, or the length of `items`
/// when there is none.
pub open spec fn find_child(items: Seq<ItemV>, name: Seq<char>) -> int
    decreases items,
{
    if items.len() == 0 {
        0
    } else if items[0] matches ItemV::Child(n, _) && items[0]->Child_0 == name {
        0
    } else {
        1 + find_child(items.skip(1), name)
    }
}

pub proof fn lemma_find_child(items: Seq<ItemV>, name: Seq<char>)
    ensures
        0 <= find_child(items, name) <= items.len(),
        forall|k: int| 0 <= k < find_child(items, name) ==> !(#[trigger] items[k] matches
            ItemV::Child(n, _) && n == name),
        find_child(items, name) < items.len() ==> (items[find_child(items, name)] matches
            ItemV::Child(n, _) && n == name),
    decreases items,
{
    if items.len() > 0 && !(items[0] matches ItemV::Child(n, _) && items[0]->Child_0 == name) {
        lemma_find_child(items.skip(1), name);
        assert forall|k: int| 0 <= k < find_child(items, name) implies !(#[trigger] items[k] matches
            ItemV::Child(n, _) && n == name) by {
            if k > 0 {
                assert(items[k] == items.skip(1)[k - 1]);
            }
        }
    }
}

/// Inserts one entry into a scope node: a file becomes a compiled type
/// appended to the items; a directory becomes a child scope named after its
/// stem — fetched when one of that name exists, created otherwise — filled
/// from the directory's own entries.
pub open spec fn insert_entry_v(node: NodeV, e: EntryV) -> Result<NodeV, ConversionError>
    decreases e,
{
    match e {
        EntryV::File { name, contents } => {
            match file_error(name, contents) {
                Some(err) => Err(err),
                None => Ok(NodeV { items: node.items.push(ItemV::Type(compile_type_v(name, contents))) }),
            }
        },
        EntryV::Dir { name, entries } => {
            let stem = file_stem_of(name);
            let idx = find_child(node.items, stem);
            if idx < node.items.len() {
                match assemble_v(entries, node.items[idx]->Child_1) {
                    Ok(c2) => Ok(NodeV { items: node.items.update(idx, ItemV::Child(stem, c2)) }),
                    Err(err) => Err(err),
                }
            } else {
                match assemble_v(entries, NodeV { items: Seq::empty() }) {
                    Ok(c) => Ok(NodeV { items: node.items.push(ItemV::Child(stem, c)) }),
                    Err(err) => Err(err),
                }
            }
        },
    }
}

/// Assembles a listing into a scope node, entry by entry, in order. The
/// first failing entry aborts the whole assembly.
pub open spec fn assemble_v(entries: Seq<EntryV>, node: NodeV) -> Result<NodeV, ConversionError>
    decreases entries,
{
    if entries.len() == 0 {
        Ok(node)
    } else {
        match insert_entry_v(node, entries[0]) {
            Ok(n2) => assemble_v(entries.skip(1), n2),
            Err(err) => Err(err),
        }
    }
}

/// The model of an assembly result.
pub open spec fn result_view(r: Result<ScopeNode, ConversionError>) -> Result<
    NodeV,
    ConversionError,
> {
    match r {
        Ok(n) => Ok(node_view(n)),
        Err(e) => Err(e),
    }
}

// ---------------------------------------------------------------------------
// Assembly, executed
// ---------------------------------------------------------------------------
/// Assembles the listing of one directory level into `node`.
pub fn assemble_into(node: ScopeNode, entries: &Vec<DirEntry>) -> (r: Result<
    ScopeNode,
    ConversionError,
>)
    ensures
        result_view(r) == assemble_v(entries_view(entries@), node_view(node)),
    decreases entries@,
{
    let ghost entries_v = entries_view(entries@);
    let ghost start = node_view(node);
    proof {
        lemma_entries_view(entries@);
    }
    let mut cur = node;
    let mut i: usize = 0;
    proof {
        assert(entries_v.skip(0) =~= entries_v);
    }
    while i < entries.len()
        invariant
            0 <= i <= entries@.len(),
            entries_v == entries_view(entries@),
            entries_v.len() == entries@.len(),
            forall|k: int| 0 <= k < entries@.len() ==> entries_v[k] == entry_view(entries@[k]),
            assemble_v(entries_v, start) == assemble_v(
                entries_v.skip(i as int),
                node_view(cur),
            ),
            start == node_view(node),
        decreases entries@.len() - i,
    {
        let ghost suffix = entries_v.skip(i as int);
        proof {
            assert(suffix[0] == entries_v[i as int]);
            assert(suffix.skip(1) =~= entries_v.skip(i as int + 1));
        }
        match &entries[i] {
            DirEntry::File { name, contents } => {
                let tname = match derive_type_name(name.as_str()) {
                    Ok(t) => t,
                    Err(e) => {
                        proof {
                            assert(insert_entry_v(node_view(cur), suffix[0])
                                == Err::<NodeV, ConversionError>(e));
                            assert(assemble_v(suffix, node_view(cur))
                                == Err::<NodeV, ConversionError>(e));
                            assert(assemble_v(entries_v, start)
                                == Err::<NodeV, ConversionError>(e));
                        }
                        return Err(e);
                    },
                };
                let gt = match compile(contents.as_str(), tname.as_str()) {
                    Ok(g) => g,
                    Err(e) => {
                        proof {
                            crate::header::lemma_first_empty_type(
                                scan_candidates(contents@, 0),
                            );
                            assert(insert_entry_v(node_view(cur), suffix[0])
                                == Err::<NodeV, ConversionError>(e));
                            assert(assemble_v(suffix, node_view(cur))
                                == Err::<NodeV, ConversionError>(e));
                            assert(assemble_v(entries_v, start)
                                == Err::<NodeV, ConversionError>(e));
                        }
                        return Err(e);
                    },
                };
                let ghost prev_items = cur.items@;
                cur.items.push(ScopeItem::Type(gt));
                proof {
                    lemma_items_view(prev_items);
                    lemma_items_view(cur.items@);
                    assert(items_view(cur.items@) =~= items_view(prev_items).push(
                        ItemV::Type(compile_type_v(name@, contents@)),
                    ));
                }
            },
            DirEntry::Dir { name, entries: sub } => {
                let stem = file_stem(name.as_str());
                let ghost items_v = items_view(cur.items@);
                proof {
                    lemma_items_view(cur.items@);
                    lemma_find_child(items_v, stem@);
                }
                // Find an existing child scope of that name.
                let mut k: usize = 0;
                let mut found: bool = false;
                while k < cur.items.len() && !found
                    invariant
                        0 <= k <= cur.items@.len(),
                        items_v == items_view(cur.items@),
                        items_v.len() == cur.items@.len(),
                        forall|m: int| 0 <= m < cur.items@.len() ==> items_v[m] == item_view(
                            cur.items@[m],
                        ),
                        !found ==> forall|m: int| 0 <= m < k ==> !(#[trigger] items_v[m] matches
                            ItemV::Child(n, _) && n == stem@),
                        found ==> k < cur.items@.len() && (items_v[k as int] matches
                            ItemV::Child(n, _) && n == stem@) && forall|m: int| 0 <= m < k
                            ==> !(#[trigger] items_v[m] matches ItemV::Child(n, _) && n == stem@),
                    decreases cur.items@.len() - k + (if found { 0int } else { 1int }),
                {
                    let is_match: bool = match &cur.items[k] {
                        ScopeItem::Child(nm, _) => str_eq(nm.as_str(), stem.as_str()),
                        _ => false,
                    };
                    if is_match {
                        found = true;
                    } else {
                        k = k + 1;
                    }
                }
                proof {
                    if found {
                        assert(find_child(items_v, stem@) == k as int);
                    } else {
                        assert(find_child(items_v, stem@) == items_v.len());
                    }
                }
                if found {
                    let ghost pre_remove = cur.items@;
                    let item = cur.items.remove(k);
                    if let ScopeItem::Child(nm, child) = item {
                        match assemble_into(child, sub) {
                            Ok(c2) => {
                                cur.items.insert(k, ScopeItem::Child(nm, c2));
                                proof {
                                    lemma_items_view(pre_remove);
                                    lemma_items_view(cur.items@);
                                    assert(items_view(cur.items@) =~= items_view(
                                        pre_remove,
                                    ).update(k as int, ItemV::Child(stem@, node_view(c2))));
                                }
                            },
                            Err(e) => {
                                return Err(e);
                            },
                        }
                    } else {
                        proof {
                            assert(false);
                        }
                    }
                } else {
                    match assemble_into(ScopeNode { items: Vec::new() }, sub) {
                        Ok(c) => {
                            let ghost prev_items = cur.items@;
                            cur.items.push(ScopeItem::Child(stem, c));
                            proof {
                                lemma_items_view(prev_items);
                                lemma_items_view(cur.items@);
                                assert(items_view(cur.items@) =~= items_view(prev_items).push(
                                    ItemV::Child(file_stem_of(name@), node_view(c)),
                                ));
                            }
                        },
                        Err(e) => {
                            return Err(e);
                        },
                    }
                }
            },
        }
        i = i + 1;
    }
    proof {
        assert(entries_v.skip(entries_v.len() as int) =~= Seq::<EntryV>::empty());
    }
    Ok(cur)
}

// ---------------------------------------------------------------------------
// Structure preservation
// ---------------------------------------------------------------------------
/// Some item of `items` is a child scope named `name`.
pub open spec fn has_child(items: Seq<ItemV>, name: Seq<char>) -> bool {
    exists|k: int|
        0 <= k < items.len() && (#[trigger] items[k] matches ItemV::Child(n, _) && n == name)
}

/// The child scope of `items` named `name`; an empty scope when there is
/// none.
pub open spec fn child_scope(items: Seq<ItemV>, name: Seq<char>) -> NodeV {
    let idx = find_child(items, name);
    if idx < items.len() {
        items[idx]->Child_1
    } else {
        NodeV { items: Seq::empty() }
    }
}

/// The compiled types among `items`, in order.
pub open spec fn types_of(items: Seq<ItemV>) -> Seq<TypeV>
    decreases items,
{
    if items.len() == 0 {
        Seq::empty()
    } else {
        (match items[0] {
            ItemV::Type(t) => seq![t],
            ItemV::Child(_, _) => Seq::empty(),
        }) + types_of(items.skip(1))
    }
}

/// The compiled types of the file entries directly in `entries`, in order.
pub open spec fn compiled_files(entries: Seq<EntryV>) -> Seq<TypeV>
    decreases entries,
{
    if entries.len() == 0 {
        Seq::empty()
    } else {
        (match entries[0] {
            EntryV::File { name, contents } => seq![compile_type_v(name, contents)],
            EntryV::Dir { .. } => Seq::empty(),
        }) + compiled_files(entries.skip(1))
    }
}

/// No two directory entries of one level share a stem, at any depth.
pub open spec fn distinct_dir_stems(entries: Seq<EntryV>) -> bool
    decreases entries,
{
    &&& (forall|a: int, b: int|
        0 <= a < b < entries.len() && entries[a] is Dir && entries[b] is Dir ==> dir_stem(
            #[trigger] entries[a],
        ) != dir_stem(#[trigger] entries[b]))
    &&& (forall|k: int| 0 <= k < entries.len() ==> distinct_inside(#[trigger] entries[k]))
}

/// The stems inside a directory entry are distinct at every level.
pub open spec fn distinct_inside(e: EntryV) -> bool
    decreases e,
{
    match e {
        EntryV::Dir { name: _, entries } => distinct_dir_stems(entries),
        EntryV::File { .. } => true,
    }
}

/// The stem of a directory entry.
pub open spec fn dir_stem(e: EntryV) -> Seq<char> {
    match e {
        EntryV::Dir { name, .. } => file_stem_of(name),
        EntryV::File { name, .. } => file_stem_of(name),
    }
}

/// The scope tree `node` mirrors the listing `entries`: every subdirectory
/// has a child scope named after its stem, holding exactly the compiled
/// types of the files directly inside it, and mirroring it in turn.
pub open spec fn structure_preserved(entries: Seq<EntryV>, node: NodeV) -> bool
    decreases entries,
{
    forall|k: int| 0 <= k < entries.len() ==> dir_preserved(#[trigger] entries[k], node)
}

/// One directory entry is mirrored by `node`.
pub open spec fn dir_preserved(e: EntryV, node: NodeV) -> bool
    decreases e,
{
    match e {
        EntryV::Dir { name, entries } => {
            let child = child_scope(node.items, file_stem_of(name));
            &&& has_child(node.items, file_stem_of(name))
            &&& types_of(child.items) == compiled_files(entries)
            &&& structure_preserved(entries, child)
        },
        EntryV::File { .. } => true,
    }
}

/// No two child scopes of one node share a name, at any depth. Assembly
/// keeps this invariant (it fetches an existing child instead of adding a
/// second one), and emission relies on it: the code generation collaborator
/// refuses a second module of one name in one scope.
pub open spec fn distinct_children(node: NodeV) -> bool
    decreases node,
{
    &&& (forall|a: int, b: int|
        0 <= a < b < node.items.len() && node.items[a] is Child && node.items[b] is Child
            ==> (#[trigger] node.items[a])->Child_0 != (#[trigger] node.items[b])->Child_0)
    &&& (forall|k: int| 0 <= k < node.items.len() ==> item_children_distinct(
        #[trigger] node.items[k],
    ))
}

/// The child scopes inside one item have distinct names, at every depth.
pub open spec fn item_children_distinct(it: ItemV) -> bool
    decreases it,
{
    match it {
        ItemV::Child(_, c) => distinct_children(c),
        ItemV::Type(_) => true,
    }
}

/// Assembly preserves distinctness of child names: inserting a file adds no
/// child, and inserting a directory either extends the one child of its stem
/// or adds the first one.
pub proof fn lemma_assemble_distinct(entries: Seq<EntryV>, node: NodeV, out: NodeV)
    requires
        assemble_v(entries, node) == Ok::<NodeV, ConversionError>(out),
        distinct_children(node),
    ensures
        distinct_children(out),
    decreases entries,
{
    if entries.len() > 0 {
        let e = entries[0];
        let n2 = insert_entry_v(node, e)->Ok_0;
        match e {
            EntryV::File { name, contents } => {
                let it = ItemV::Type(compile_type_v(name, contents));
                assert(n2.items == node.items.push(it));
                assert forall|k: int| 0 <= k < n2.items.len() implies item_children_distinct(
                    #[trigger] n2.items[k],
                ) by {
                    if k < node.items.len() {
                        assert(n2.items[k] == node.items[k]);
                    } else {
                        assert(n2.items[k] == it);
                    }
                }
                assert(distinct_children(n2));
            },
            EntryV::Dir { name, entries: sub } => {
                let stem = file_stem_of(name);
                let idx = find_child(node.items, stem);
                lemma_find_child(node.items, stem);
                if idx < node.items.len() {
                    let child = node.items[idx]->Child_1;
                    let c2 = assemble_v(sub, child)->Ok_0;
                    assert(item_children_distinct(node.items[idx]));
                    lemma_assemble_distinct(sub, child, c2);
                    let it = ItemV::Child(stem, c2);
                    assert(n2.items == node.items.update(idx, it));
                    assert forall|k: int| 0 <= k < n2.items.len() implies item_children_distinct(
                        #[trigger] n2.items[k],
                    ) by {
                        if k != idx {
                            assert(n2.items[k] == node.items[k]);
                        } else {
                            assert(n2.items[k] == it);
                        }
                    }
                    // The replaced child keeps its name, so pairwise
                    // distinctness carries over position by position.
                    assert forall|a: int, b: int|
                        0 <= a < b < n2.items.len() && n2.items[a] is Child && n2.items[b]
                            is Child implies (#[trigger] n2.items[a])->Child_0 != (
                    #[trigger] n2.items[b])->Child_0 by {
                        assert(node.items[idx] matches ItemV::Child(n, _) && n == stem);
                        if a != idx {
                            assert(n2.items[a] == node.items[a]);
                        }
                        if b != idx {
                            assert(n2.items[b] == node.items[b]);
                        }
                    }
                    assert(distinct_children(n2));
                } else {
                    let c = assemble_v(sub, NodeV { items: Seq::empty() })->Ok_0;
                    lemma_assemble_distinct(sub, NodeV { items: Seq::empty() }, c);
                    let it = ItemV::Child(stem, c);
                    assert(n2.items == node.items.push(it));
                    assert forall|k: int| 0 <= k < n2.items.len() implies item_children_distinct(
                        #[trigger] n2.items[k],
                    ) by {
                        if k < node.items.len() {
                            assert(n2.items[k] == node.items[k]);
                        } else {
                            assert(n2.items[k] == it);
                        }
                    }
                    // No earlier child carries the stem: the scan for it ran
                    // off the end.
                    assert forall|a: int, b: int|
                        0 <= a < b < n2.items.len() && n2.items[a] is Child && n2.items[b]
                            is Child implies (#[trigger] n2.items[a])->Child_0 != (
                    #[trigger] n2.items[b])->Child_0 by {
                        if b == node.items.len() {
                            assert(n2.items[a] == node.items[a]);
                            assert(!(node.items[a] matches ItemV::Child(n, _) && n == stem));
                        } else {
                            assert(n2.items[a] == node.items[a]);
                            assert(n2.items[b] == node.items[b]);
                        }
                    }
                    assert(distinct_children(n2));
                }
            },
        }
        lemma_assemble_distinct(entries.skip(1), n2, out);
    }
}

/// The item one entry assembles to: a file's compiled type, or a child scope
/// holding its directory's assembled items.
pub open spec fn assembled_item(e: EntryV) -> ItemV
    decreases e,
{
    match e {
        EntryV::File { name, contents } => ItemV::Type(compile_type_v(name, contents)),
        EntryV::Dir { name, entries } => ItemV::Child(
            file_stem_of(name),
            NodeV { items: assembled_items(entries) },
        ),
    }
}

/// The items a listing assembles to, one per entry, in order.
pub open spec fn assembled_items(entries: Seq<EntryV>) -> Seq<ItemV>
    decreases entries,
{
    if entries.len() == 0 {
        Seq::empty()
    } else {
        seq![assembled_item(entries[0])] + assembled_items(entries.skip(1))
    }
}

pub proof fn lemma_assembled_items(entries: Seq<EntryV>)
    ensures
        assembled_items(entries).len() == entries.len(),
        forall|k: int| 0 <= k < entries.len() ==> assembled_items(entries)[k] == assembled_item(
            entries[k],
        ),
    decreases entries,
{
    if entries.len() > 0 {
        lemma_assembled_items(entries.skip(1));
    }
}

/// Distinctness of stems carries over to the rest of a listing.
proof fn lemma_distinct_skip(entries: Seq<EntryV>)
    requires
        entries.len() > 0,
        distinct_dir_stems(entries),
    ensures
        distinct_dir_stems(entries.skip(1)),
{
    let rest = entries.skip(1);
    assert forall|a: int, b: int|
        0 <= a < b < rest.len() && rest[a] is Dir && rest[b] is Dir implies dir_stem(
        #[trigger] rest[a],
    ) != dir_stem(#[trigger] rest[b]) by {
        assert(rest[a] == entries[a + 1]);
        assert(rest[b] == entries[b + 1]);
    }
    assert forall|k: int| 0 <= k < rest.len() implies distinct_inside(#[trigger] rest[k]) by {
        assert(rest[k] == entries[k + 1]);
    }
}

/// Pushing an item adds a child of exactly its own name.
proof fn lemma_has_child_push(items: Seq<ItemV>, it: ItemV, name: Seq<char>)
    ensures
        has_child(items.push(it), name) <==> (has_child(items, name) || (it matches ItemV::Child(
            n,
            _,
        ) && n == name)),
{
    let pushed = items.push(it);
    if has_child(items, name) {
        let k = choose|k: int|
            0 <= k < items.len() && (#[trigger] items[k] matches ItemV::Child(n, _) && n == name);
        assert(pushed[k] == items[k]);
        assert(has_child(pushed, name));
    }
    if it matches ItemV::Child(n, _) && n == name {
        assert(pushed[items.len() as int] == it);
        assert(has_child(pushed, name));
    }
    if has_child(pushed, name) {
        let k = choose|k: int|
            0 <= k < pushed.len() && (#[trigger] pushed[k] matches ItemV::Child(n, _) && n
                == name);
        if k < items.len() {
            assert(items[k] == pushed[k]);
            assert(has_child(items, name));
        } else {
            assert(pushed[k] == it);
        }
    }
}

/// Assembling a listing whose directory stems are distinct and collide with
/// no child already present appends exactly one item per entry, in order.
proof fn lemma_assemble_appends(entries: Seq<EntryV>, node: NodeV, out: NodeV)
    requires
        assemble_v(entries, node) == Ok::<NodeV, ConversionError>(out),
        distinct_dir_stems(entries),
        forall|k: int|
            0 <= k < entries.len() && #[trigger] entries[k] is Dir ==> !has_child(
                node.items,
                dir_stem(entries[k]),
            ),
    ensures
        out.items == node.items + assembled_items(entries),
    decreases entries,
{
    if entries.len() == 0 {
        assert(node.items + assembled_items(entries) =~= node.items);
    } else {
        let e = entries[0];
        let step = insert_entry_v(node, e);
        let n2 = step->Ok_0;
        lemma_distinct_skip(entries);
        match e {
            EntryV::File { name, contents } => {
                assert(n2.items == node.items.push(ItemV::Type(compile_type_v(name, contents))));
                assert forall|k: int|
                    0 <= k < entries.skip(1).len() && #[trigger] entries.skip(1)[k] is Dir
                    implies !has_child(n2.items, dir_stem(entries.skip(1)[k])) by {
                    assert(entries.skip(1)[k] == entries[k + 1]);
                    lemma_has_child_push(
                        node.items,
                        ItemV::Type(compile_type_v(name, contents)),
                        dir_stem(entries[k + 1]),
                    );
                }
                lemma_assemble_appends(entries.skip(1), n2, out);
                assert(node.items + assembled_items(entries) =~= n2.items + assembled_items(
                    entries.skip(1),
                ));
            },
            EntryV::Dir { name, entries: sub } => {
                let stem = file_stem_of(name);
                lemma_find_child(node.items, stem);
                if find_child(node.items, stem) < node.items.len() {
                    assert(has_child(node.items, stem));
                    assert(false);
                }
                let c = assemble_v(sub, NodeV { items: Seq::empty() })->Ok_0;
                assert(distinct_inside(entries[0]));
                lemma_assemble_appends(sub, NodeV { items: Seq::empty() }, c);
                assert(c.items =~= assembled_items(sub));
                assert(n2.items == node.items.push(ItemV::Child(stem, c)));
                assert(ItemV::Child(stem, c) == assembled_item(e));
                assert forall|k: int|
                    0 <= k < entries.skip(1).len() && #[trigger] entries.skip(1)[k] is Dir
                    implies !has_child(n2.items, dir_stem(entries.skip(1)[k])) by {
                    assert(entries.skip(1)[k] == entries[k + 1]);
                    assert(dir_stem(entries[0]) != dir_stem(entries[k + 1]));
                    lemma_has_child_push(
                        node.items,
                        ItemV::Child(stem, c),
                        dir_stem(entries[k + 1]),
                    );
                }
                lemma_assemble_appends(entries.skip(1), n2, out);
                assert(node.items + assembled_items(entries) =~= n2.items + assembled_items(
                    entries.skip(1),
                ));
            },
        }
    }
}

/// The types among the assembled items are exactly the compiled files.
proof fn lemma_assembled_types(entries: Seq<EntryV>)
    ensures
        types_of(assembled_items(entries)) == compiled_files(entries),
    decreases entries,
{
    if entries.len() > 0 {
        lemma_assembled_types(entries.skip(1));
        let items = assembled_items(entries);
        lemma_assembled_items(entries);
        assert(items[0] == assembled_item(entries[0]));
        assert(items.skip(1) =~= assembled_items(entries.skip(1)));
        match entries[0] {
            EntryV::File { name, contents } => {
                assert(types_of(items) == seq![compile_type_v(name, contents)] + types_of(
                    items.skip(1),
                ));
            },
            EntryV::Dir { .. } => {
                assert(types_of(items) == Seq::<TypeV>::empty() + types_of(items.skip(1)));
                assert(Seq::<TypeV>::empty() + types_of(items.skip(1)) =~= types_of(items.skip(1)));
                assert(Seq::<TypeV>::empty() + compiled_files(entries.skip(1)) =~= compiled_files(
                    entries.skip(1),
                ));
            },
        }
    }
}

/// Assembled items mirror their listing.
proof fn lemma_assembled_structure(entries: Seq<EntryV>)
    requires
        distinct_dir_stems(entries),
    ensures
        structure_preserved(entries, NodeV { items: assembled_items(entries) }),
    decreases entries,
{
    let items = assembled_items(entries);
    lemma_assembled_items(entries);
    assert forall|k: int| 0 <= k < entries.len() implies dir_preserved(
        #[trigger] entries[k],
        NodeV { items },
    ) by {
        match entries[k] {
            EntryV::Dir { name, entries: sub } => {
                let stem = file_stem_of(name);
                lemma_find_child(items, stem);
                // The only child named `stem` is the one assembled from this
                // entry, so the scan finds exactly it.
                assert(items[k] matches ItemV::Child(n, _) && n == stem);
                let idx = find_child(items, stem);
                assert(idx <= k);
                if idx < k {
                    assert(items[idx] matches ItemV::Child(n, _) && n == stem);
                    assert(entries[idx] is Dir);
                    assert(dir_stem(entries[idx]) == stem);
                    assert(false);
                }
                assert(idx == k);
                assert(child_scope(items, stem) == NodeV { items: assembled_items(sub) });
                assert(distinct_inside(entries[k]));
                lemma_assembled_types(sub);
                lemma_assembled_structure(sub);
            },
            EntryV::File { .. } => {},
        }
    }
}

/// Directory assembly is structure-preserving: when a listing's directory
/// stems are distinct at every level and assembly from a fresh root
/// succeeds, then for every subdirectory of the listing, at any depth, the
/// output tree holds a child scope named after the subdirectory's stem that
/// holds exactly the compiled types of the files directly inside it, in
/// order.
pub proof fn lemma_assemble_structure_preserving(entries: Seq<EntryV>, out: NodeV)
    requires
        distinct_dir_stems(entries),
        assemble_v(entries, NodeV { items: Seq::empty() }) == Ok::<NodeV, ConversionError>(out),
    ensures
        structure_preserved(entries, out),
        types_of(out.items) == compiled_files(entries),
{
    lemma_assemble_appends(entries, NodeV { items: Seq::empty() }, out);
    assert(out.items =~= assembled_items(entries));
    lemma_assembled_types(entries);
    lemma_assembled_structure(entries);
}

/// Assembles a whole directory listing into a fresh root scope.
pub fn assemble(entries: &Vec<DirEntry>) -> (r: Result<ScopeNode, ConversionError>)
    ensures
        result_view(r) == assemble_v(
            entries_view(entries@),
            NodeV { items: Seq::empty() },
        ),
{
    let root = ScopeNode { items: Vec::new() };
    proof {
        assert(items_view(Seq::<ScopeItem>::empty()) =~= Seq::<ItemV>::empty());
    }
    assemble_into(root, entries)
}

} // verus!
