use vstd::prelude::*;

verus! {

/// A parsed PDF document of the `lopdf` crate.
#[verifier::external_type_specification]
#[verifier::external_body]
pub struct ExDocument(lopdf::Document);

/// An error of the `lopdf` crate.
#[verifier::external_type_specification]
#[verifier::external_body]
pub struct ExPdfError(lopdf::Error);

/// The key and settings with which `lopdf` encrypts a document.
#[verifier::external_type_specification]
#[verifier::external_body]
pub struct ExEncryptionState(lopdf::EncryptionState);

/// The permissions that `lopdf` writes into an encrypted document.
#[verifier::external_type_specification]
#[verifier::external_body]
pub struct ExPermissions(lopdf::Permissions);

/// An I/O error of the standard library.
#[verifier::external_type_specification]
#[verifier::external_body]
pub struct ExIoError(std::io::Error);

/// Whether `lopdf::Document::load_from` reads `bytes` as a PDF.  `lopdf` is
/// built without its `rayon` feature, so it reads on the calling thread and
/// the outcome rests on the bytes alone.
pub uninterp spec fn pdf_loads(bytes: Seq<u8>) -> bool;

/// `doc` is a document that `lopdf::Document::load_from` may build from
/// `bytes`.  This is a relation, not a function: every document holds a hash
/// map with its own randomly seeded hasher, so no two loads give equal values.
pub uninterp spec fn pdf_loaded_from(doc: lopdf::Document, bytes: Seq<u8>) -> bool;

/// The object ids of the pages of a document, in the order in which
/// `lopdf::Document::page_iter` walks its page tree.
pub uninterp spec fn pdf_page_ids(doc: lopdf::Document) -> Seq<(u32, u16)>;

/// The ids of the objects that a document holds.
pub uninterp spec fn pdf_object_ids(doc: lopdf::Document) -> Set<(u32, u16)>;

/// What a document holds under `id` when it is a dictionary: its `/Count`
/// entry when that is an integer, and its `/Parent` entry when that is a
/// reference; `None` when `id` holds no dictionary.
pub uninterp spec fn pdf_tree_node(doc: lopdf::Document, id: (u32, u16)) -> Option<
    (Option<i64>, Option<(u32, u16)>),
>;

/// Whether a document is encrypted, as `lopdf::Document::is_encrypted` tells:
/// its trailer's `/Encrypt` entry refers to a dictionary of the document.
pub uninterp spec fn pdf_encrypted(doc: lopdf::Document) -> bool;

/// Whether the document's trailer holds a file identifier: an `/ID` array
/// whose first element is a string, which the key derivation of the older
/// security handlers needs.
pub uninterp spec fn pdf_has_file_id(doc: lopdf::Document) -> bool;

/// Whether `perms` is `lopdf::Permissions::all()`, every permission.
pub uninterp spec fn pdf_all_permissions(perms: lopdf::Permissions) -> bool;

/// `state` is an encryption state that `EncryptionState::try_from` may build
/// from `EncryptionVersion::V2` with these owner and user passwords, key
/// length and permissions.  A relation: the derivation draws random bytes.
pub uninterp spec fn pdf_v2_state(
    state: lopdf::EncryptionState,
    owner_password: Seq<char>,
    user_password: Seq<char>,
    key_length: usize,
    perms: lopdf::Permissions,
) -> bool;

/// What `lopdf::Document::encrypt` makes of a document with an encryption
/// state built for `V2`: the encrypted document, or `None` when it fails.
pub uninterp spec fn pdf_encrypt(doc: lopdf::Document, state: lopdf::EncryptionState) -> Option<lopdf::Document>;

/// What `lopdf::Document::delete_object` makes of a document and the object
/// `id`: the document after the call, and `None` when no object `id` was
/// there, else the `/Parent` reference that the removed object held.
pub uninterp spec fn pdf_delete(doc: lopdf::Document, id: (u32, u16)) -> (
    lopdf::Document,
    Option<Option<(u32, u16)>>,
);

/// The document after its dictionary `id` gets the `/Count` entry `count`.
pub uninterp spec fn pdf_with_count(doc: lopdf::Document, id: (u32, u16), count: i64) -> lopdf::Document;

/// The document after `lopdf::Document::prune_objects`.
pub uninterp spec fn pdf_pruned(doc: lopdf::Document) -> lopdf::Document;

/// The bytes that `lopdf::Document::save_to` writes for a document, or `None`
/// when it fails.
pub uninterp spec fn pdf_saved(doc: lopdf::Document) -> Option<Seq<u8>>;

/// Calls `lopdf::Document::load_from` on the bytes; the contract claims that
/// it succeeds exactly when `pdf_loads` says so, and that the document is one
/// that `pdf_loaded_from` admits for the bytes.
#[verifier::external_body]
pub(crate) fn load_pdf(bytes: Vec<u8>) -> (res: Result<lopdf::Document, lopdf::Error>)
    ensures
        res is Ok == pdf_loads(bytes@),
        res matches Ok(doc) ==> pdf_loaded_from(doc, bytes@),
{
    lopdf::Document::load_from(std::io::Cursor::new(bytes))
}

/// Counts what `lopdf::Document::page_iter` yields.  Counting walks the
/// iterator step by step; unlike `get_pages`, it does not reserve room by the
/// page tree's `/Count` entries.
#[verifier::external_body]
pub(crate) fn page_count(doc: &lopdf::Document) -> (n: usize)
    ensures
        n == pdf_page_ids(*doc).len(),
{
    doc.page_iter().count()
}

/// The first page that `lopdf::Document::page_iter` yields, if any.
#[verifier::external_body]
pub(crate) fn first_page(doc: &lopdf::Document) -> (res: Option<(u32, u16)>)
    ensures
        res == (if pdf_page_ids(*doc).len() > 0 {
            Some(pdf_page_ids(*doc)[0])
        } else {
            None
        }),
{
    doc.page_iter().next()
}

/// Reads the dictionary that the document holds under `id` (through
/// `lopdf::Object::as_dict`): its `/Count` as an integer and its `/Parent` as
/// a reference, each when present.
#[verifier::external_body]
pub(crate) fn page_tree_node(doc: &lopdf::Document, id: (u32, u16)) -> (res: Option<
    (Option<i64>, Option<(u32, u16)>),
>)
    ensures
        res == pdf_tree_node(*doc, id),
{
    match doc.objects.get(&id) {
        Some(obj) => match obj.as_dict() {
            Ok(dict) => Some((
                dict.get(b"Count").and_then(lopdf::Object::as_i64).ok(),
                dict.get(b"Parent").and_then(lopdf::Object::as_reference).ok(),
            )),
            Err(_) => None,
        },
        None => None,
    }
}

/// Sets the `/Count` entry of the dictionary under `id` (through
/// `lopdf::Dictionary::set`); nothing happens when `id` holds no dictionary.
/// As the source shows, no object comes or goes, the dictionary keeps its
/// `/Parent`, no other dictionary changes, and the page tree walks as before
/// (`/Count` only sizes the walk's estimate).
#[verifier::external_body]
pub(crate) fn set_page_count(doc: &mut lopdf::Document, id: (u32, u16), count: i64)
    ensures
        *final(doc) == pdf_with_count(*old(doc), id, count),
        pdf_object_ids(*final(doc)) == pdf_object_ids(*old(doc)),
        pdf_page_ids(*final(doc)) == pdf_page_ids(*old(doc)),
        pdf_tree_node(*final(doc), id) == match pdf_tree_node(*old(doc), id) {
            Some((_, parent)) => Some((Some(count), parent)),
            None => None,
        },
        forall|other: (u32, u16)|
            other != id ==> pdf_tree_node(*final(doc), other) == pdf_tree_node(*old(doc), other),
{
    if let Some(obj) = doc.objects.get_mut(&id) {
        if let Ok(dict) = obj.as_dict_mut() {
            dict.set("Count", count);
        }
    }
}

/// Calls `lopdf::Document::delete_object`, which drops every reference to
/// `id` from the objects it reaches and removes the object `id`, and reads
/// the removed object's `/Parent` reference.  As the source shows, `id` is
/// the one object id that leaves, and an object was removed exactly when the
/// document held `id`.
#[verifier::external_body]
pub(crate) fn delete_object(doc: &mut lopdf::Document, id: (u32, u16)) -> (res: Option<Option<(u32, u16)>>)
    ensures
        (*final(doc), res) == pdf_delete(*old(doc), id),
        pdf_object_ids(*final(doc)) == pdf_object_ids(*old(doc)).remove(id),
        res is Some == pdf_object_ids(*old(doc)).contains(id),
{
    match doc.delete_object(id) {
        Some(obj) => Some(match obj.as_dict() {
            Ok(dict) => dict.get(b"Parent").and_then(lopdf::Object::as_reference).ok(),
            Err(_) => None,
        }),
        None => None,
    }
}

/// Calls `lopdf::Document::prune_objects`, which drops the objects that the
/// document no longer references; besides naming the outcome, the contract
/// claims only that no object is added.
#[verifier::external_body]
pub(crate) fn prune_objects(doc: &mut lopdf::Document)
    ensures
        *final(doc) == pdf_pruned(*old(doc)),
        pdf_object_ids(*final(doc)).subset_of(pdf_object_ids(*old(doc))),
{
    doc.prune_objects();
}

/// `lopdf::Permissions::all()`: every permission.
#[verifier::external_body]
pub(crate) fn all_permissions() -> (res: lopdf::Permissions)
    ensures
        pdf_all_permissions(res),
{
    lopdf::Permissions::all()
}

/// Builds a `lopdf::EncryptionState` from `EncryptionVersion::V2` with the
/// given passwords, key length and permissions.  The state is one that
/// `pdf_v2_state` admits for them.  As the source shows, a key length under
/// 8 bits gives an empty RC4 key, on which `lopdf` panics, and with a key
/// length of at most 128 bits the one step that can fail is reading the
/// document's file identifier.
#[verifier::external_body]
pub(crate) fn encryption_v2(
    doc: &lopdf::Document,
    owner_password: &str,
    user_password: &str,
    key_length: usize,
    permissions: lopdf::Permissions,
) -> (res: Result<lopdf::EncryptionState, lopdf::Error>)
    requires
        8 <= key_length,
    ensures
        res matches Ok(state) ==> pdf_v2_state(
            state,
            owner_password@,
            user_password@,
            key_length,
            permissions,
        ),
        key_length <= 128 ==> (res is Ok <==> pdf_has_file_id(*doc)),
{
    lopdf::EncryptionState::try_from(lopdf::EncryptionVersion::V2 {
        document: doc,
        owner_password,
        user_password,
        key_length,
        permissions,
    })
}

/// Calls `lopdf::Document::encrypt` with a state built for `V2`; the
/// contract claims that the outcome is the one `pdf_encrypt` names for the
/// document and the state.  A `V2` state carries no crypt filters, so every
/// object is encrypted with RC4 and nothing is drawn at random (the AES
/// filters of later versions draw their IVs at random, hence the
/// `requires`).  As its source shows, it refuses a document that is already
/// encrypted; a failure adds no object; a success keeps every object id, adds
/// the encryption dictionary and points the trailer's `/Encrypt` entry at it,
/// so that the document reads as encrypted.
#[verifier::external_body]
pub(crate) fn encrypt_document(doc: &mut lopdf::Document, state: &lopdf::EncryptionState) -> (res: Result<
    (),
    lopdf::Error,
>)
    requires
        exists|owner: Seq<char>, user: Seq<char>, key_length: usize, perms: lopdf::Permissions|
            pdf_v2_state(*state, owner, user, key_length, perms),
    ensures
        res is Ok ==> pdf_encrypt(*old(doc), *state) == Some(*final(doc)),
        res is Err ==> pdf_encrypt(*old(doc), *state) is None,
        pdf_encrypted(*old(doc)) ==> res is Err,
        res is Err ==> pdf_object_ids(*final(doc)) == pdf_object_ids(*old(doc)),
        res is Ok ==> pdf_object_ids(*old(doc)).subset_of(pdf_object_ids(*final(doc))),
        res is Ok ==> pdf_encrypted(*final(doc)),
{
    doc.encrypt(state)
}

/// Calls `lopdf::Document::save_to` with an empty buffer and returns the
/// buffer; the contract claims that the outcome is the one `pdf_saved` names
/// for the document as it was handed over.
#[verifier::external_body]
pub(crate) fn save_document(doc: &mut lopdf::Document) -> (res: Result<Vec<u8>, std::io::Error>)
    ensures
        match res {
            Ok(bytes) => pdf_saved(*old(doc)) == Some(bytes@),
            Err(_) => pdf_saved(*old(doc)) is None,
        },
{
    let mut out = Vec::new();
    match doc.save_to(&mut out) {
        Ok(()) => Ok(out),
        Err(e) => Err(e),
    }
}

// ---------------------------------------------------------------------------
// Removing page 1.
// ---------------------------------------------------------------------------

/// How many page-tree levels above a page are visited at most: the depth to
/// which `lopdf` walks a page tree, plus the page's own parent.
pub const MAX_TREE_LEVELS: u32 = 257;

/// `count - 1` in two's complement, as a release build computes it.
pub open spec fn count_minus_one(count: i64) -> i64 {
    if count == i64::MIN {
        i64::MAX
    } else {
        (count - 1) as i64
    }
}

/// The document after the `/Count` of the page-tree node `node` and of its
/// ancestors, through at most `levels` `/Parent` links, is lowered by one.
/// The walk stops at a missing link or at an object that is no dictionary.
pub open spec fn counts_lowered(doc: lopdf::Document, node: Option<(u32, u16)>, levels: nat) -> lopdf::Document
    decreases levels,
{
    if levels == 0 {
        doc
    } else {
        match node {
            None => doc,
            Some(id) => match pdf_tree_node(doc, id) {
                None => doc,
                Some((count, parent)) => counts_lowered(
                    match count {
                        Some(c) => pdf_with_count(doc, id, count_minus_one(c)),
                        None => doc,
                    },
                    parent,
                    (levels - 1) as nat,
                ),
            },
        }
    }
}

/// The document after its page 1 is deleted: the page object goes, the
/// references to it go, and the page counts above it drop by one.  A
/// document without pages stays as it is.
pub open spec fn page_one_removed(doc: lopdf::Document) -> lopdf::Document {
    if pdf_page_ids(doc).len() > 0 {
        let (after, parent) = pdf_delete(doc, pdf_page_ids(doc)[0]);
        counts_lowered(
            after,
            match parent {
                Some(p) => p,
                None => None,
            },
            MAX_TREE_LEVELS as nat,
        )
    } else {
        doc
    }
}

/// The page-tree node reached from `start` after `k` `/Parent` links, or
/// `None` once a link is missing or leads to an object that is no dictionary.
pub open spec fn tree_ancestor(doc: lopdf::Document, start: Option<(u32, u16)>, k: nat) -> Option<
    (u32, u16),
>
    decreases k,
{
    if k == 0 {
        start
    } else {
        match tree_ancestor(doc, start, (k - 1) as nat) {
            Some(id) => match pdf_tree_node(doc, id) {
                Some((_, parent)) => parent,
                None => None,
            },
            None => None,
        }
    }
}

/// How many of the first `n` nodes on the `/Parent` chain from `start` are
/// `id`.
pub open spec fn chain_hits(doc: lopdf::Document, start: Option<(u32, u16)>, id: (u32, u16), n: nat) -> nat
    decreases n,
{
    if n == 0 {
        0
    } else {
        chain_hits(doc, start, id, (n - 1) as nat) + if tree_ancestor(doc, start, (n - 1) as nat)
            == Some(id) {
            1nat
        } else {
            0nat
        }
    }
}

/// A page-tree node with its `/Count` lowered by one (wrapping as a release
/// build does); a node without an integer `/Count`, or no node, stays as it
/// is.
pub open spec fn node_lowered(node: Option<(Option<i64>, Option<(u32, u16)>)>) -> Option<
    (Option<i64>, Option<(u32, u16)>),
> {
    match node {
        Some((Some(c), parent)) => Some((Some(count_minus_one(c)), parent)),
        _ => node,
    }
}

/// What of a page-tree node the walk up the tree relies on: whether it has a
/// `/Count`, and its `/Parent`.
pub open spec fn node_shape(node: Option<(Option<i64>, Option<(u32, u16)>)>) -> Option<
    (bool, Option<(u32, u16)>),
> {
    match node {
        Some((count, parent)) => Some((count is Some, parent)),
        None => None,
    }
}

/// The `/Parent` reference that the removed page held, if any.
pub open spec fn removed_parent(res: Option<Option<(u32, u16)>>) -> Option<(u32, u16)> {
    match res {
        Some(p) => p,
        None => None,
    }
}

/// Deletes page 1, as `lopdf::Document::delete_pages(&[1])` does, with
/// `lopdf`'s object calls: the first page of the page walk and the references
/// to it are removed, then the `/Count` of each page-tree node above it is
/// lowered by one.  The walk up the tree is bounded by `MAX_TREE_LEVELS`, and
/// the count wraps around as a release build does: `delete_pages` itself
/// sizes a map by the tree's `/Count` entries and follows `/Parent` without
/// end, so it can fail or hang on a crafted document.
///
/// Stated node by node: after the page is deleted, every node on the page's
/// `/Parent` chain (its parent, grandparent and so on up to the root, within
/// the bound) that the chain passes once has its `/Count` lowered by one, and
/// every node off the chain is left as it was.
pub fn remove_page_one(doc: &mut lopdf::Document)
    ensures
        *final(doc) == page_one_removed(*old(doc)),
        pdf_page_ids(*old(doc)).len() > 0 ==> pdf_object_ids(*final(doc)) == pdf_object_ids(
            *old(doc),
        ).remove(pdf_page_ids(*old(doc))[0]),
        pdf_page_ids(*old(doc)).len() == 0 ==> *final(doc) == *old(doc),
        pdf_page_ids(*old(doc)).len() > 0 ==> ({
            let (after, res) = pdf_delete(*old(doc), pdf_page_ids(*old(doc))[0]);
            let start = removed_parent(res);
            &&& forall|id: (u32, u16)|
                chain_hits(after, start, id, MAX_TREE_LEVELS as nat) == 0 ==> #[trigger] pdf_tree_node(
                    *final(doc),
                    id,
                ) == pdf_tree_node(after, id)
            &&& forall|id: (u32, u16)|
                chain_hits(after, start, id, MAX_TREE_LEVELS as nat) == 1 ==> #[trigger] pdf_tree_node(
                    *final(doc),
                    id,
                ) == node_lowered(pdf_tree_node(after, id))
        }),
{
    match first_page(doc) {
        None => {},
        Some(first) => {
            let removed = delete_object(doc, first);
            let mut node: Option<(u32, u16)> = match removed {
                Some(p) => p,
                None => None,
            };
            let ghost after = *doc;
            let ghost start = node;
            let mut levels: u32 = 0;
            while levels < MAX_TREE_LEVELS
                invariant
                    levels <= MAX_TREE_LEVELS,
                    pdf_object_ids(*doc) == pdf_object_ids(after),
                    node == tree_ancestor(after, start, levels as nat),
                    counts_lowered(*doc, node, (MAX_TREE_LEVELS - levels) as nat) == counts_lowered(
                        after,
                        start,
                        MAX_TREE_LEVELS as nat,
                    ),
                    forall|id: (u32, u16)|
                        #[trigger] node_shape(pdf_tree_node(*doc, id)) == node_shape(
                            pdf_tree_node(after, id),
                        ),
                    forall|id: (u32, u16)|
                        chain_hits(after, start, id, levels as nat) == 0 ==> #[trigger] pdf_tree_node(
                            *doc,
                            id,
                        ) == pdf_tree_node(after, id),
                    forall|id: (u32, u16)|
                        chain_hits(after, start, id, levels as nat) == 1 ==> #[trigger] pdf_tree_node(
                            *doc,
                            id,
                        ) == node_lowered(pdf_tree_node(after, id)),
                decreases MAX_TREE_LEVELS - levels,
            {
                let ghost before = *doc;
                let ghost cur = node;
                match node {
                    None => {},
                    Some(id) => {
                        match page_tree_node(doc, id) {
                            None => {
                                assert(node_shape(pdf_tree_node(after, id)) == node_shape(
                                    pdf_tree_node(before, id),
                                ));
                                node = None;
                            },
                            Some((count, parent)) => {
                                assert(node_shape(pdf_tree_node(after, id)) == node_shape(
                                    pdf_tree_node(before, id),
                                ));
                                match count {
                                    Some(c) => {
                                        let lowered: i64 = if c == i64::MIN {
                                            i64::MAX
                                        } else {
                                            c - 1
                                        };
                                        set_page_count(doc, id, lowered);
                                    },
                                    None => {},
                                }
                                node = parent;
                            },
                        }
                    },
                }
                proof {
                    assert(chain_hits(after, start, cur->0, (levels + 1) as nat) == chain_hits(
                        after,
                        start,
                        cur->0,
                        levels as nat,
                    ) + if cur is Some {
                        1nat
                    } else {
                        0nat
                    });
                    assert forall|other: (u32, u16)| cur != Some(other) implies chain_hits(
                        after,
                        start,
                        other,
                        (levels + 1) as nat,
                    ) == chain_hits(after, start, other, levels as nat) by {}
                }
                levels = levels + 1;
            }
        },
    }
}

} // verus!
