//! The state of the collections tree: the collections, folders and saved
//! requests shown, which nodes are expanded or selected, and the pending
//! renames, deletions, moves and new-folder input.
use vstd::prelude::*;

use crate::database::{Collection, CollectionAuthType, CollectionBodyType, CollectionFolder, CollectionRequest};
use crate::text::{copy_opt_string, copy_pairs, opt_view, pairs_view};

verus! {

/// What the user did in the collections tree.
#[derive(Debug, Clone)]
pub enum Message {
    ToggleCollection(usize),
    ToggleFolder(i32),
    NewCollectionNameChanged(String),
    CreateCollection,
    StartRenameCollection(usize),
    RenameCollectionValueChanged(String),
    ConfirmRenameCollection,
    CancelRenameCollection,
    RequestDeleteCollection(usize),
    ConfirmDeleteCollection(usize),
    CancelDeleteCollection,
    ShowNewFolderInput(i32, Option<i32>),
    HideNewFolderInput,
    NewFolderNameChanged(String),
    CreateFolder,
    StartRenameFolder(i32),
    RenameFolderValueChanged(String),
    ConfirmRenameFolder,
    CancelRenameFolder,
    RequestDeleteFolder(i32),
    ConfirmDeleteFolder(i32),
    CancelDeleteFolder,
    StartRenameRequest(i32),
    RenameRequestValueChanged(String),
    ConfirmRenameRequest,
    CancelRenameRequest,
    RequestDeleteRequest(i32),
    ConfirmDeleteRequest(i32),
    CancelDeleteRequest,
    LoadRequest(i32),
    MoveRequestUp(i32),
    MoveRequestDown(i32),
    StartMoveToFolder(i32),
    MoveToFolder(i32, Option<i32>),
    CancelMoveToFolder,
    ImportCollection,
    ImportCollectionData(Option<String>),
    ImportOpenApi,
    ImportOpenApiData(Option<String>),
    ExportCollection(usize),
    ExportCollectionData,
    SaveCurrentRequest,
}

/// A node of the tree: a collection by position, a folder or request by id.
#[derive(Debug, Clone, Copy, PartialEq, Eq, Structural)]
pub enum TreeItemId {
    Collection(usize),
    Folder(i32),
    Request(i32),
}

/// The collections tree.
#[derive(Debug, Clone)]
pub struct CollectionView {
    pub collections: Vec<Collection>,
    pub folders: Vec<CollectionFolder>,
    pub requests: Vec<CollectionRequest>,
    pub expanded_collections: Vec<bool>,
    pub expanded_folders: Vec<bool>,
    pub selected_item: Option<TreeItemId>,
    pub hovered_item: Option<TreeItemId>,
    pub new_collection_name: String,
    pub new_folder_name: String,
    pub new_folder_target: Option<i32>,
    pub new_folder_parent: Option<i32>,
    pub renaming_collection: Option<usize>,
    pub rename_collection_value: String,
    pub renaming_folder: Option<i32>,
    pub rename_folder_value: String,
    pub renaming_request: Option<i32>,
    pub rename_request_value: String,
    pub pending_delete_collection: Option<usize>,
    pub pending_delete_folder: Option<i32>,
    pub pending_delete_request: Option<i32>,
    pub moving_request: Option<i32>,
    pub moving_collection_id: Option<i32>,
}

/// The tree holds nothing, nothing is expanded, selected or pending, and
/// every text input is empty.
pub open spec fn is_empty_view(v: CollectionView) -> bool {
    &&& v.collections@.len() == 0
    &&& v.folders@.len() == 0
    &&& v.requests@.len() == 0
    &&& v.expanded_collections@.len() == 0
    &&& v.expanded_folders@.len() == 0
    &&& v.selected_item is None
    &&& v.hovered_item is None
    &&& v.new_collection_name@.len() == 0
    &&& v.new_folder_name@.len() == 0
    &&& v.new_folder_target is None
    &&& v.new_folder_parent is None
    &&& v.renaming_collection is None
    &&& v.rename_collection_value@.len() == 0
    &&& v.renaming_folder is None
    &&& v.rename_folder_value@.len() == 0
    &&& v.renaming_request is None
    &&& v.rename_request_value@.len() == 0
    &&& v.pending_delete_collection is None
    &&& v.pending_delete_folder is None
    &&& v.pending_delete_request is None
    &&& v.moving_request is None
    &&& v.moving_collection_id is None
}

/// The position of the first folder with id `id`, or -1.
pub open spec fn folder_pos(s: Seq<CollectionFolder>, id: i32) -> int
    decreases s.len(),
{
    if s.len() == 0 {
        -1
    } else if folder_pos(s.drop_last(), id) >= 0 {
        folder_pos(s.drop_last(), id)
    } else if s.last().id == id {
        s.len() - 1
    } else {
        -1
    }
}

/// The position of the first saved request with id `id`, or -1.
pub open spec fn request_pos(s: Seq<CollectionRequest>, id: i32) -> int
    decreases s.len(),
{
    if s.len() == 0 {
        -1
    } else if request_pos(s.drop_last(), id) >= 0 {
        request_pos(s.drop_last(), id)
    } else if s.last().id == id {
        s.len() - 1
    } else {
        -1
    }
}

proof fn lemma_folder_pos(s: Seq<CollectionFolder>, id: i32)
    ensures
        -1 <= folder_pos(s, id) < s.len(),
        folder_pos(s, id) >= 0 ==> s[folder_pos(s, id)].id == id,
        forall|j: int|
            0 <= j < s.len() && (folder_pos(s, id) < 0 || j < folder_pos(s, id)) ==> s[j].id != id,
    decreases s.len(),
{
    if s.len() > 0 {
        lemma_folder_pos(s.drop_last(), id);
        assert forall|j: int| 0 <= j < s.len() - 1 implies s[j] == s.drop_last()[j] by {}
    }
}

proof fn lemma_request_pos(s: Seq<CollectionRequest>, id: i32)
    ensures
        -1 <= request_pos(s, id) < s.len(),
        request_pos(s, id) >= 0 ==> s[request_pos(s, id)].id == id,
        forall|j: int|
            0 <= j < s.len() && (request_pos(s, id) < 0 || j < request_pos(s, id)) ==> s[j].id != id,
    decreases s.len(),
{
    if s.len() > 0 {
        lemma_request_pos(s.drop_last(), id);
        assert forall|j: int| 0 <= j < s.len() - 1 implies s[j] == s.drop_last()[j] by {}
    }
}

/// `s` with the flag at `i` flipped, when there is one.
pub open spec fn toggled(s: Seq<bool>, i: int) -> Seq<bool> {
    if 0 <= i < s.len() {
        s.update(i, !s[i])
    } else {
        s
    }
}

/// What handling message `m` does to the tree `v`: `w` is the new tree and
/// `ret` the id of a saved request to open, if any. Messages that the
/// caller acts on (creating, importing, exporting, saving, reordering)
/// leave the tree as it is.
pub open spec fn collection_update(v: CollectionView, m: Message, w: CollectionView, ret: Option<i32>) -> bool {
    match m {
        Message::ToggleCollection(idx) => ret is None && w == (CollectionView {
            expanded_collections: w.expanded_collections,
            selected_item: Some(TreeItemId::Collection(idx)),
            ..v
        }) && w.expanded_collections@ == toggled(v.expanded_collections@, idx as int),
        Message::ToggleFolder(id) => ret is None && w == (CollectionView {
            expanded_folders: w.expanded_folders,
            selected_item: Some(TreeItemId::Folder(id)),
            ..v
        }) && w.expanded_folders@ == toggled(v.expanded_folders@, folder_pos(v.folders@, id)),
        Message::NewCollectionNameChanged(name) => ret is None && w == (CollectionView {
            new_collection_name: name,
            ..v
        }),
        Message::ShowNewFolderInput(col, parent) => ret is None && w == (CollectionView {
            new_folder_name: w.new_folder_name,
            new_folder_target: Some(col),
            new_folder_parent: parent,
            ..v
        }) && w.new_folder_name@.len() == 0,
        Message::HideNewFolderInput => ret is None && w == (CollectionView {
            new_folder_name: w.new_folder_name,
            new_folder_target: None,
            new_folder_parent: None,
            ..v
        }) && w.new_folder_name@.len() == 0,
        Message::NewFolderNameChanged(name) => ret is None && w == (CollectionView {
            new_folder_name: name,
            ..v
        }),
        Message::RequestDeleteCollection(idx) => ret is None && w == (CollectionView {
            pending_delete_collection: Some(idx),
            ..v
        }),
        Message::ConfirmDeleteCollection(_) | Message::CancelDeleteCollection => ret is None && w
            == (CollectionView { pending_delete_collection: None, ..v }),
        Message::RequestDeleteFolder(id) => ret is None && w == (CollectionView {
            pending_delete_folder: Some(id),
            ..v
        }),
        Message::ConfirmDeleteFolder(_) | Message::CancelDeleteFolder => ret is None && w == (
        CollectionView { pending_delete_folder: None, ..v }),
        Message::RequestDeleteRequest(id) => ret is None && w == (CollectionView {
            pending_delete_request: Some(id),
            ..v
        }),
        Message::ConfirmDeleteRequest(_) | Message::CancelDeleteRequest => ret is None && w == (
        CollectionView { pending_delete_request: None, ..v }),
        Message::LoadRequest(id) => ret == Some(id) && w == (CollectionView {
            selected_item: Some(TreeItemId::Request(id)),
            ..v
        }),
        Message::StartRenameCollection(idx) => ret is None && if idx < v.collections@.len() {
            w == (CollectionView {
                renaming_collection: Some(idx),
                rename_collection_value: v.collections@[idx as int].name,
                ..v
            })
        } else {
            w == v
        },
        Message::RenameCollectionValueChanged(value) => ret is None && w == (CollectionView {
            rename_collection_value: value,
            ..v
        }),
        Message::ConfirmRenameCollection | Message::CancelRenameCollection => ret is None && w == (
        CollectionView { renaming_collection: None, ..v }),
        Message::StartRenameFolder(id) => ret is None && {
            let p = folder_pos(v.folders@, id);
            if p >= 0 {
                w == (CollectionView {
                    renaming_folder: Some(id),
                    rename_folder_value: v.folders@[p].name,
                    ..v
                })
            } else {
                w == v
            }
        },
        Message::RenameFolderValueChanged(value) => ret is None && w == (CollectionView {
            rename_folder_value: value,
            ..v
        }),
        Message::ConfirmRenameFolder | Message::CancelRenameFolder => ret is None && w == (
        CollectionView { renaming_folder: None, ..v }),
        Message::StartRenameRequest(id) => ret is None && {
            let p = request_pos(v.requests@, id);
            if p >= 0 {
                w == (CollectionView {
                    renaming_request: Some(id),
                    rename_request_value: v.requests@[p].name,
                    ..v
                })
            } else {
                w == v
            }
        },
        Message::RenameRequestValueChanged(value) => ret is None && w == (CollectionView {
            rename_request_value: value,
            ..v
        }),
        Message::ConfirmRenameRequest | Message::CancelRenameRequest => ret is None && w == (
        CollectionView { renaming_request: None, ..v }),
        Message::StartMoveToFolder(id) => ret is None && {
            let p = request_pos(v.requests@, id);
            if p >= 0 {
                w == (CollectionView {
                    moving_request: Some(id),
                    moving_collection_id: Some(v.requests@[p].collection_id),
                    ..v
                })
            } else {
                w == v
            }
        },
        Message::MoveToFolder(_, _) | Message::CancelMoveToFolder => ret is None && w == (
        CollectionView { moving_request: None, moving_collection_id: None, ..v }),
        _ => ret is None && w == v,
    }
}

/// Orders by the first, then the second, then the third component.
pub open spec fn key_le(a: (int, int, int), b: (int, int, int)) -> bool {
    a.0 < b.0 || (a.0 == b.0 && (a.1 < b.1 || (a.1 == b.1 && a.2 <= b.2)))
}

/// `s` with `x` inserted after the last element, counted from the end,
/// whose key is not above that of `x`.
pub open spec fn insert_by_key<T>(s: Seq<T>, x: T, key: spec_fn(T) -> (int, int, int)) -> Seq<T>
    decreases s.len(),
{
    if s.len() == 0 {
        seq![x]
    } else if key_le(key(s.last()), key(x)) {
        s.push(x)
    } else {
        insert_by_key(s.drop_last(), x, key).push(s.last())
    }
}

/// The stable sort of `s` by `key` (what `slice::sort_by_key` gives): the
/// elements in order of key, equal keys in the order they came in.
pub open spec fn sorted_by_key<T>(s: Seq<T>, key: spec_fn(T) -> (int, int, int)) -> Seq<T>
    decreases s.len(),
{
    if s.len() == 0 {
        s
    } else {
        insert_by_key(sorted_by_key(s.drop_last(), key), s.last(), key)
    }
}

/// The elements of `s` that satisfy `p`, in order.
pub open spec fn keep_where<T>(s: Seq<T>, p: spec_fn(T) -> bool) -> Seq<T>
    decreases s.len(),
{
    if s.len() == 0 {
        s
    } else if p(s.last()) {
        keep_where(s.drop_last(), p).push(s.last())
    } else {
        keep_where(s.drop_last(), p)
    }
}

/// The sort key of a folder: collection, parent folder (0 for none), position.
pub open spec fn folder_key(f: CollectionFolder) -> (int, int, int) {
    (
        f.collection_id as int,
        match f.parent_folder_id {
            Some(p) => p as int,
            None => 0,
        },
        f.sort_order as int,
    )
}

/// The sort key of a saved request: collection, folder (0 for none), position.
pub open spec fn request_key(r: CollectionRequest) -> (int, int, int) {
    (
        r.collection_id as int,
        match r.folder_id {
            Some(p) => p as int,
            None => 0,
        },
        r.sort_order as int,
    )
}

/// A saved request with its texts and lists taken by their views.
pub struct RequestRecord {
    pub id: i32,
    pub collection_id: i32,
    pub folder_id: Option<i32>,
    pub name: Seq<char>,
    pub method: Seq<char>,
    pub url: Seq<char>,
    pub headers: Seq<(Seq<char>, Seq<char>)>,
    pub body: Option<Seq<char>>,
    pub body_type: CollectionBodyType,
    pub auth_type: CollectionAuthType,
    pub auth_data: Option<Seq<char>>,
    pub params: Seq<(Seq<char>, Seq<char>)>,
    pub config_json: Option<Seq<char>>,
    pub scripts: Option<Seq<char>>,
    pub sort_order: i32,
}

/// The record of a saved request.
pub open spec fn request_record(r: CollectionRequest) -> RequestRecord {
    RequestRecord {
        id: r.id,
        collection_id: r.collection_id,
        folder_id: r.folder_id,
        name: r.name@,
        method: r.method@,
        url: r.url@,
        headers: pairs_view(r.headers@),
        body: opt_view(r.body),
        body_type: r.body_type,
        auth_type: r.auth_type,
        auth_data: opt_view(r.auth_data),
        params: pairs_view(r.params@),
        config_json: opt_view(r.config_json),
        scripts: opt_view(r.scripts),
        sort_order: r.sort_order,
    }
}

/// The records of a list of saved requests.
pub open spec fn records(s: Seq<CollectionRequest>) -> Seq<RequestRecord> {
    s.map_values(|r: CollectionRequest| request_record(r))
}

/// The sort key of a record: collection, folder (0 for none), position.
pub open spec fn record_key(r: RequestRecord) -> (int, int, int) {
    (
        r.collection_id as int,
        match r.folder_id {
            Some(p) => p as int,
            None => 0,
        },
        r.sort_order as int,
    )
}

/// `s` with the flags of the first `n` positions kept and new positions off.
pub open spec fn resized_flags(s: Seq<bool>, n: nat) -> Seq<bool> {
    Seq::new(n, |i: int| if i < s.len() { s[i] } else { false })
}

/// Inserting at position `j` agrees with `insert_by_key` when every element
/// from `j` on has a key above that of `x` and the one before does not.
proof fn lemma_insert_at<T>(s: Seq<T>, x: T, key: spec_fn(T) -> (int, int, int), j: int)
    requires
        0 <= j <= s.len(),
        forall|k: int| j <= k < s.len() ==> !key_le(key(#[trigger] s[k]), key(x)),
        j > 0 ==> key_le(key(s[j - 1]), key(x)),
    ensures
        insert_by_key(s, x, key) == s.insert(j, x),
    decreases s.len(),
{
    if s.len() == 0 {
        assert(s.insert(0, x) =~= seq![x]);
    } else if j == s.len() {
        assert(s.insert(j, x) =~= s.push(x));
    } else {
        assert(!key_le(key(s[s.len() - 1]), key(x)));
        assert forall|k: int| j <= k < s.drop_last().len() implies !key_le(
            key(#[trigger] s.drop_last()[k]),
            key(x),
        ) by {
            assert(s.drop_last()[k] == s[k]);
        }
        if j > 0 {
            assert(s.drop_last()[j - 1] == s[j - 1]);
        }
        lemma_insert_at(s.drop_last(), x, key, j);
        assert(s.drop_last().insert(j, x).push(s.last()) =~= s.insert(j, x));
    }
}

fn folder_key_le(a: &CollectionFolder, b: &CollectionFolder) -> (r: bool)
    ensures
        r == key_le(folder_key(*a), folder_key(*b)),
{
    let ap: i32 = match a.parent_folder_id {
        Some(p) => p,
        None => 0,
    };
    let bp: i32 = match b.parent_folder_id {
        Some(p) => p,
        None => 0,
    };
    a.collection_id < b.collection_id || (a.collection_id == b.collection_id && (ap < bp || (ap
        == bp && a.sort_order <= b.sort_order)))
}

fn request_key_le(a: &CollectionRequest, b: &CollectionRequest) -> (r: bool)
    ensures
        r == key_le(request_key(*a), request_key(*b)),
{
    let ap: i32 = match a.folder_id {
        Some(p) => p,
        None => 0,
    };
    let bp: i32 = match b.folder_id {
        Some(p) => p,
        None => 0,
    };
    a.collection_id < b.collection_id || (a.collection_id == b.collection_id && (ap < bp || (ap
        == bp && a.sort_order <= b.sort_order)))
}

fn dup_opt_string(s: &Option<String>) -> (r: Option<String>)
    ensures
        r == *s,
{
    match s {
        Some(x) => Some(x.clone()),
        None => None,
    }
}

fn dup_collection(c: &Collection) -> (r: Collection)
    ensures
        r == *c,
{
    Collection {
        id: c.id,
        name: c.name.clone(),
        description: dup_opt_string(&c.description),
        sort_order: c.sort_order,
    }
}

fn dup_folder(f: &CollectionFolder) -> (r: CollectionFolder)
    ensures
        r == *f,
{
    CollectionFolder {
        id: f.id,
        collection_id: f.collection_id,
        name: f.name.clone(),
        parent_folder_id: f.parent_folder_id,
        sort_order: f.sort_order,
    }
}

fn dup_request(r: &CollectionRequest) -> (out: CollectionRequest)
    ensures
        request_record(out) == request_record(*r),
{
    CollectionRequest {
        id: r.id,
        collection_id: r.collection_id,
        folder_id: r.folder_id,
        name: r.name.clone(),
        method: r.method.clone(),
        url: r.url.clone(),
        headers: copy_pairs(&r.headers),
        body: copy_opt_string(&r.body),
        body_type: r.body_type,
        auth_type: r.auth_type,
        auth_data: copy_opt_string(&r.auth_data),
        params: copy_pairs(&r.params),
        config_json: copy_opt_string(&r.config_json),
        scripts: copy_opt_string(&r.scripts),
        sort_order: r.sort_order,
    }
}

fn resize_flags(v: &mut Vec<bool>, n: usize)
    ensures
        final(v)@ == resized_flags(old(v)@, n as nat),
{
    if v.len() < n {
        v.resize(n, false);
    } else {
        v.truncate(n);
    }
    proof {
        assert(final(v)@ =~= resized_flags(old(v)@, n as nat));
    }
}

/// Sorts folders stably by collection, parent folder and position.
fn sort_folders(v: &Vec<CollectionFolder>) -> (r: Vec<CollectionFolder>)
    ensures
        r@ == sorted_by_key(v@, |f: CollectionFolder| folder_key(f)),
{
    let ghost key = |f: CollectionFolder| folder_key(f);
    let mut out: Vec<CollectionFolder> = Vec::new();
    let mut i: usize = 0;
    while i < v.len()
        invariant
            i <= v@.len(),
            key == (|f: CollectionFolder| folder_key(f)),
            out@ == sorted_by_key(v@.take(i as int), key),
        decreases v.len() - i,
    {
        let x = dup_folder(&v[i]);
        let mut j: usize = out.len();
        while j > 0 && !folder_key_le(&out[j - 1], &x)
            invariant
                j <= out@.len(),
                key == (|f: CollectionFolder| folder_key(f)),
                forall|k: int| j <= k < out@.len() ==> !key_le(key(#[trigger] out@[k]), key(x)),
            decreases j,
        {
            j = j - 1;
        }
        proof {
            lemma_insert_at(out@, x, key, j as int);
            assert(v@.take(i as int + 1).drop_last() =~= v@.take(i as int));
        }
        out.insert(j, x);
        i = i + 1;
    }
    proof {
        assert(v@.take(i as int) =~= v@);
    }
    out
}

/// Sorts saved requests stably by collection, folder and position.
fn sort_requests(v: &Vec<CollectionRequest>) -> (r: Vec<CollectionRequest>)
    ensures
        records(r@) == sorted_by_key(records(v@), |q: RequestRecord| record_key(q)),
{
    let ghost key = |q: RequestRecord| record_key(q);
    let mut out: Vec<CollectionRequest> = Vec::new();
    let mut i: usize = 0;
    proof {
        assert(records(out@) =~= Seq::<RequestRecord>::empty());
        assert(records(v@).take(0) =~= Seq::<RequestRecord>::empty());
    }
    while i < v.len()
        invariant
            i <= v@.len(),
            key == (|q: RequestRecord| record_key(q)),
            records(out@) == sorted_by_key(records(v@).take(i as int), key),
        decreases v.len() - i,
    {
        let x = dup_request(&v[i]);
        let mut j: usize = out.len();
        while j > 0 && !request_key_le(&out[j - 1], &x)
            invariant
                j <= out@.len(),
                key == (|q: RequestRecord| record_key(q)),
                forall|k: int|
                    j <= k < out@.len() ==> !key_le(key(#[trigger] records(out@)[k]), key(request_record(x))),
            decreases j,
        {
            j = j - 1;
        }
        proof {
            lemma_insert_at(records(out@), request_record(x), key, j as int);
            assert(records(v@).take(i as int + 1).drop_last() =~= records(v@).take(i as int));
            assert(records(v@).take(i as int + 1).last() == request_record(x));
        }
        let ghost before = out@;
        out.insert(j, x);
        proof {
            assert(records(out@) =~= records(before).insert(j as int, request_record(x)));
        }
        i = i + 1;
    }
    proof {
        assert(records(v@).take(i as int) =~= records(v@));
    }
    out
}

impl CollectionView {
    /// An empty tree (see `is_empty_view`).
    pub fn new() -> (r: Self)
        ensures
            is_empty_view(r),
    {
        CollectionView {
            collections: Vec::new(),
            folders: Vec::new(),
            requests: Vec::new(),
            expanded_collections: Vec::new(),
            expanded_folders: Vec::new(),
            selected_item: None,
            hovered_item: None,
            new_collection_name: String::new(),
            new_folder_name: String::new(),
            new_folder_target: None,
            new_folder_parent: None,
            renaming_collection: None,
            rename_collection_value: String::new(),
            renaming_folder: None,
            rename_folder_value: String::new(),
            renaming_request: None,
            rename_request_value: String::new(),
            pending_delete_collection: None,
            pending_delete_folder: None,
            pending_delete_request: None,
            moving_request: None,
            moving_collection_id: None,
        }
    }

    /// The position of the first folder with id `folder_id`, if any.
    pub fn folder_index(&self, folder_id: i32) -> (r: Option<usize>)
        ensures
            match r {
                Some(i) => i < self.folders@.len() && i as int == folder_pos(self.folders@, folder_id),
                None => folder_pos(self.folders@, folder_id) < 0,
            },
    {
        proof {
            lemma_folder_pos(self.folders@, folder_id);
        }
        let mut i: usize = 0;
        while i < self.folders.len()
            invariant
                i <= self.folders@.len(),
                forall|j: int| 0 <= j < i ==> self.folders@[j].id != folder_id,
                -1 <= folder_pos(self.folders@, folder_id) < self.folders@.len(),
                folder_pos(self.folders@, folder_id) >= 0 ==> self.folders@[folder_pos(
                    self.folders@,
                    folder_id,
                )].id == folder_id,
                forall|j: int|
                    0 <= j < self.folders@.len() && (folder_pos(self.folders@, folder_id) < 0 || j
                        < folder_pos(self.folders@, folder_id)) ==> self.folders@[j].id != folder_id,
            decreases self.folders.len() - i,
        {
            if self.folders[i].id == folder_id {
                return Some(i);
            }
            i = i + 1;
        }
        None
    }

    fn request_index(&self, request_id: i32) -> (r: Option<usize>)
        ensures
            match r {
                Some(i) => i < self.requests@.len() && i as int == request_pos(self.requests@, request_id),
                None => request_pos(self.requests@, request_id) < 0,
            },
    {
        proof {
            lemma_request_pos(self.requests@, request_id);
        }
        let mut i: usize = 0;
        while i < self.requests.len()
            invariant
                i <= self.requests@.len(),
                forall|j: int| 0 <= j < i ==> self.requests@[j].id != request_id,
                -1 <= request_pos(self.requests@, request_id) < self.requests@.len(),
                request_pos(self.requests@, request_id) >= 0 ==> self.requests@[request_pos(
                    self.requests@,
                    request_id,
                )].id == request_id,
                forall|j: int|
                    0 <= j < self.requests@.len() && (request_pos(self.requests@, request_id) < 0
                        || j < request_pos(self.requests@, request_id)) ==> self.requests@[j].id
                        != request_id,
            decreases self.requests.len() - i,
        {
            if self.requests[i].id == request_id {
                return Some(i);
            }
            i = i + 1;
        }
        None
    }

    /// Handles a message (see `collection_update`); returns the id of a saved
    /// request to open, if any.
    pub fn update(&mut self, message: Message) -> (r: Option<i32>)
        ensures
            collection_update(*old(self), message, *final(self), r),
    {
        match message {
            Message::ToggleCollection(idx) => {
                if idx < self.expanded_collections.len() {
                    let e = self.expanded_collections[idx];
                    self.expanded_collections.set(idx, !e);
                }
                self.selected_item = Some(TreeItemId::Collection(idx));
                None
            },
            Message::ToggleFolder(folder_id) => {
                match self.folder_index(folder_id) {
                    Some(f_idx) => {
                        if f_idx < self.expanded_folders.len() {
                            let e = self.expanded_folders[f_idx];
                            self.expanded_folders.set(f_idx, !e);
                        }
                    },
                    None => {},
                }
                self.selected_item = Some(TreeItemId::Folder(folder_id));
                None
            },
            Message::NewCollectionNameChanged(name) => {
                self.new_collection_name = name;
                None
            },
            Message::ShowNewFolderInput(col_id, parent_id) => {
                self.new_folder_target = Some(col_id);
                self.new_folder_parent = parent_id;
                self.new_folder_name = String::new();
                None
            },
            Message::HideNewFolderInput => {
                self.new_folder_target = None;
                self.new_folder_parent = None;
                self.new_folder_name = String::new();
                None
            },
            Message::NewFolderNameChanged(name) => {
                self.new_folder_name = name;
                None
            },
            Message::RequestDeleteCollection(idx) => {
                self.pending_delete_collection = Some(idx);
                None
            },
            Message::ConfirmDeleteCollection(_) => {
                self.pending_delete_collection = None;
                None
            },
            Message::CancelDeleteCollection => {
                self.pending_delete_collection = None;
                None
            },
            Message::RequestDeleteFolder(folder_id) => {
                self.pending_delete_folder = Some(folder_id);
                None
            },
            Message::ConfirmDeleteFolder(_) => {
                self.pending_delete_folder = None;
                None
            },
            Message::CancelDeleteFolder => {
                self.pending_delete_folder = None;
                None
            },
            Message::RequestDeleteRequest(req_id) => {
                self.pending_delete_request = Some(req_id);
                None
            },
            Message::ConfirmDeleteRequest(_) => {
                self.pending_delete_request = None;
                None
            },
            Message::CancelDeleteRequest => {
                self.pending_delete_request = None;
                None
            },
            Message::LoadRequest(req_id) => {
                self.selected_item = Some(TreeItemId::Request(req_id));
                Some(req_id)
            },
            Message::StartRenameCollection(idx) => {
                if idx < self.collections.len() {
                    let name = self.collections[idx].name.clone();
                    self.renaming_collection = Some(idx);
                    self.rename_collection_value = name;
                }
                None
            },
            Message::RenameCollectionValueChanged(value) => {
                self.rename_collection_value = value;
                None
            },
            Message::ConfirmRenameCollection => {
                self.renaming_collection = None;
                None
            },
            Message::CancelRenameCollection => {
                self.renaming_collection = None;
                None
            },
            Message::StartRenameFolder(folder_id) => {
                match self.folder_index(folder_id) {
                    Some(i) => {
                        let name = self.folders[i].name.clone();
                        self.renaming_folder = Some(folder_id);
                        self.rename_folder_value = name;
                    },
                    None => {},
                }
                None
            },
            Message::RenameFolderValueChanged(value) => {
                self.rename_folder_value = value;
                None
            },
            Message::ConfirmRenameFolder => {
                self.renaming_folder = None;
                None
            },
            Message::CancelRenameFolder => {
                self.renaming_folder = None;
                None
            },
            Message::StartRenameRequest(req_id) => {
                match self.request_index(req_id) {
                    Some(i) => {
                        let name = self.requests[i].name.clone();
                        self.renaming_request = Some(req_id);
                        self.rename_request_value = name;
                    },
                    None => {},
                }
                None
            },
            Message::RenameRequestValueChanged(value) => {
                self.rename_request_value = value;
                None
            },
            Message::ConfirmRenameRequest => {
                self.renaming_request = None;
                None
            },
            Message::CancelRenameRequest => {
                self.renaming_request = None;
                None
            },
            Message::StartMoveToFolder(req_id) => {
                match self.request_index(req_id) {
                    Some(i) => {
                        let col = self.requests[i].collection_id;
                        self.moving_request = Some(req_id);
                        self.moving_collection_id = Some(col);
                    },
                    None => {},
                }
                None
            },
            Message::MoveToFolder(_, _) => {
                self.moving_request = None;
                self.moving_collection_id = None;
                None
            },
            Message::CancelMoveToFolder => {
                self.moving_request = None;
                self.moving_collection_id = None;
                None
            },
            _ => None,
        }
    }

    /// Replaces the collections; the expansion flags follow the new number
    /// of collections, new ones collapsed. Nothing else changes.
    pub fn sync_collections(&mut self, collections: &[Collection])
        ensures
            final(self).collections@ == collections@,
            final(self).expanded_collections@ == resized_flags(
                old(self).expanded_collections@,
                collections@.len(),
            ),
            *final(self) == (CollectionView {
                collections: final(self).collections,
                expanded_collections: final(self).expanded_collections,
                ..*old(self)
            }),
    {
        let mut v: Vec<Collection> = Vec::new();
        let mut i: usize = 0;
        while i < collections.len()
            invariant
                i <= collections@.len(),
                v@ == collections@.take(i as int),
            decreases collections.len() - i,
        {
            v.push(dup_collection(&collections[i]));
            proof {
                assert(v@ =~= collections@.take(i as int + 1));
            }
            i = i + 1;
        }
        proof {
            assert(collections@.take(i as int) =~= collections@);
        }
        self.collections = v;
        resize_flags(&mut self.expanded_collections, collections.len());
    }

    /// Replaces the folders of collection `col_id` by `folders`, keeps the
    /// others, and orders all of them stably by collection, parent folder and
    /// position. The folder expansion flags follow the new number of folders
    /// by position, new ones collapsed. Nothing else changes.
    pub fn sync_folders_for_collection(&mut self, col_id: i32, folders: &[CollectionFolder])
        ensures
            final(self).folders@ == sorted_by_key(
                keep_where(old(self).folders@, |f: CollectionFolder| f.collection_id != col_id)
                    + folders@,
                |f: CollectionFolder| folder_key(f),
            ),
            final(self).expanded_folders@ == resized_flags(
                old(self).expanded_folders@,
                final(self).folders@.len(),
            ),
            *final(self) == (CollectionView {
                folders: final(self).folders,
                expanded_folders: final(self).expanded_folders,
                ..*old(self)
            }),
    {
        let ghost p = |f: CollectionFolder| f.collection_id != col_id;
        let mut kept: Vec<CollectionFolder> = Vec::new();
        let mut i: usize = 0;
        while i < self.folders.len()
            invariant
                i <= self.folders@.len(),
                p == (|f: CollectionFolder| f.collection_id != col_id),
                kept@ == keep_where(self.folders@.take(i as int), p),
            decreases self.folders.len() - i,
        {
            proof {
                assert(self.folders@.take(i as int + 1).drop_last() =~= self.folders@.take(i as int));
            }
            if self.folders[i].collection_id != col_id {
                kept.push(dup_folder(&self.folders[i]));
            }
            i = i + 1;
        }
        proof {
            assert(self.folders@.take(i as int) =~= self.folders@);
        }
        let mut j: usize = 0;
        let ghost base = kept@;
        while j < folders.len()
            invariant
                j <= folders@.len(),
                kept@ == base + folders@.take(j as int),
            decreases folders.len() - j,
        {
            kept.push(dup_folder(&folders[j]));
            proof {
                assert(kept@ =~= base + folders@.take(j as int + 1));
            }
            j = j + 1;
        }
        proof {
            assert(folders@.take(j as int) =~= folders@);
        }
        let sorted = sort_folders(&kept);
        let n = sorted.len();
        self.folders = sorted;
        resize_flags(&mut self.expanded_folders, n);
    }

    /// Replaces the saved requests of collection `col_id` by `requests`,
    /// keeps the others, and orders all of them stably by collection, folder
    /// and position. Nothing else changes.
    pub fn sync_requests_for_collection(&mut self, col_id: i32, requests: &[CollectionRequest])
        ensures
            records(final(self).requests@) == sorted_by_key(
                keep_where(records(old(self).requests@), |q: RequestRecord| q.collection_id != col_id)
                    + records(requests@),
                |q: RequestRecord| record_key(q),
            ),
            *final(self) == (CollectionView { requests: final(self).requests, ..*old(self) }),
    {
        let ghost p = |q: RequestRecord| q.collection_id != col_id;
        let mut kept: Vec<CollectionRequest> = Vec::new();
        let mut i: usize = 0;
        proof {
            assert(records(kept@) =~= Seq::<RequestRecord>::empty());
            assert(records(self.requests@).take(0) =~= Seq::<RequestRecord>::empty());
        }
        while i < self.requests.len()
            invariant
                i <= self.requests@.len(),
                p == (|q: RequestRecord| q.collection_id != col_id),
                records(kept@) == keep_where(records(self.requests@).take(i as int), p),
            decreases self.requests.len() - i,
        {
            proof {
                assert(records(self.requests@).take(i as int + 1).drop_last() =~= records(
                    self.requests@,
                ).take(i as int));
                assert(records(self.requests@).take(i as int + 1).last() == request_record(
                    self.requests@[i as int],
                ));
            }
            if self.requests[i].collection_id != col_id {
                let ghost before = kept@;
                kept.push(dup_request(&self.requests[i]));
                proof {
                    assert(records(kept@) =~= records(before).push(
                        request_record(self.requests@[i as int]),
                    ));
                }
            }
            i = i + 1;
        }
        proof {
            assert(records(self.requests@).take(i as int) =~= records(self.requests@));
        }
        let mut j: usize = 0;
        let ghost base = records(kept@);
        proof {
            assert(records(requests@).take(0) =~= Seq::<RequestRecord>::empty());
            assert(base + records(requests@).take(0) =~= base);
        }
        while j < requests.len()
            invariant
                j <= requests@.len(),
                records(kept@) == base + records(requests@).take(j as int),
            decreases requests.len() - j,
        {
            let ghost before = kept@;
            kept.push(dup_request(&requests[j]));
            proof {
                assert(records(kept@) =~= records(before).push(request_record(requests@[j as int])));
                assert(records(kept@) =~= base + records(requests@).take(j as int + 1));
            }
            j = j + 1;
        }
        proof {
            assert(records(requests@).take(j as int) =~= records(requests@));
        }
        let sorted = sort_requests(&kept);
        self.requests = sorted;
    }
}

// ---------------------------------------------------------------------------
// Laws of the ordering.
// ---------------------------------------------------------------------------

/// Every element is in order of key.
pub open spec fn is_sorted_by<T>(s: Seq<T>, key: spec_fn(T) -> (int, int, int)) -> bool {
    forall|i: int, j: int| 0 <= i < j < s.len() ==> key_le(key(#[trigger] s[i]), key(#[trigger] s[j]))
}

proof fn lemma_insert_by_key_contains<T>(s: Seq<T>, x: T, key: spec_fn(T) -> (int, int, int))
    ensures
        forall|e: T| #[trigger] insert_by_key(s, x, key).contains(e) ==> e == x || s.contains(e),
    decreases s.len(),
{
    if s.len() > 0 && !key_le(key(s.last()), key(x)) {
        lemma_insert_by_key_contains(s.drop_last(), x, key);
        let r = insert_by_key(s.drop_last(), x, key);
        assert forall|e: T| #[trigger] r.push(s.last()).contains(e) implies e == x || s.contains(e) by {
            let k = choose|k: int| 0 <= k < r.push(s.last()).len() && r.push(s.last())[k] == e;
            if k == r.len() {
                assert(s[s.len() - 1] == e);
            } else {
                assert(r.contains(e));
                if e != x {
                    let m = choose|m: int| 0 <= m < s.drop_last().len() && s.drop_last()[m] == e;
                    assert(s[m] == e);
                }
            }
        }
    } else if s.len() > 0 {
        assert forall|e: T| #[trigger] s.push(x).contains(e) implies e == x || s.contains(e) by {
            let k = choose|k: int| 0 <= k < s.push(x).len() && s.push(x)[k] == e;
            if k < s.len() {
                assert(s[k] == e);
            }
        }
    } else {
        assert forall|e: T| #[trigger] seq![x].contains(e) implies e == x || s.contains(e) by {
            let k = choose|k: int| 0 <= k < seq![x].len() && seq![x][k] == e;
        }
    }
}

proof fn lemma_insert_by_key_sorted<T>(s: Seq<T>, x: T, key: spec_fn(T) -> (int, int, int))
    requires
        is_sorted_by(s, key),
    ensures
        is_sorted_by(insert_by_key(s, x, key), key),
    decreases s.len(),
{
    if s.len() == 0 {
    } else if key_le(key(s.last()), key(x)) {
        let r = s.push(x);
        assert forall|i: int, j: int| 0 <= i < j < r.len() implies key_le(
            key(#[trigger] r[i]),
            key(#[trigger] r[j]),
        ) by {
            if j == s.len() {
                if i < s.len() - 1 {
                    assert(key_le(key(s[i]), key(s[s.len() - 1])));
                }
            } else {
                assert(r[i] == s[i] && r[j] == s[j]);
            }
        }
    } else {
        let t = s.drop_last();
        assert(is_sorted_by(t, key)) by {
            assert forall|i: int, j: int| 0 <= i < j < t.len() implies key_le(
                key(#[trigger] t[i]),
                key(#[trigger] t[j]),
            ) by {
                assert(t[i] == s[i] && t[j] == s[j]);
            }
        }
        lemma_insert_by_key_sorted(t, x, key);
        lemma_insert_by_key_contains(t, x, key);
        let m = insert_by_key(t, x, key);
        let r = m.push(s.last());
        assert forall|i: int, j: int| 0 <= i < j < r.len() implies key_le(
            key(#[trigger] r[i]),
            key(#[trigger] r[j]),
        ) by {
            if j == m.len() {
                assert(m.contains(m[i]));
                if m[i] != x {
                    let k = choose|k: int| 0 <= k < t.len() && t[k] == m[i];
                    assert(key_le(key(s[k]), key(s[s.len() - 1])));
                }
            } else {
                assert(r[i] == m[i] && r[j] == m[j]);
            }
        }
    }
}

/// The stable sort puts every element in order of key.
pub proof fn lemma_sorted_by_key_sorted<T>(s: Seq<T>, key: spec_fn(T) -> (int, int, int))
    ensures
        is_sorted_by(sorted_by_key(s, key), key),
    decreases s.len(),
{
    if s.len() > 0 {
        lemma_sorted_by_key_sorted(s.drop_last(), key);
        lemma_insert_by_key_sorted(sorted_by_key(s.drop_last(), key), s.last(), key);
    }
}

proof fn lemma_insert_by_key_multiset<T>(s: Seq<T>, x: T, key: spec_fn(T) -> (int, int, int))
    ensures
        insert_by_key(s, x, key).to_multiset() == s.to_multiset().insert(x),
    decreases s.len(),
{
    broadcast use vstd::seq_lib::to_multiset_build;

    if s.len() == 0 {
        assert(s =~= Seq::<T>::empty());
        assert(seq![x] =~= s.push(x));
    } else if key_le(key(s.last()), key(x)) {
    } else {
        let t = s.drop_last();
        lemma_insert_by_key_multiset(t, x, key);
        assert(t.push(s.last()) =~= s);
        assert(s.to_multiset() == t.push(s.last()).to_multiset());
        assert(insert_by_key(t, x, key).push(s.last()).to_multiset() == insert_by_key(t, x, key).to_multiset().insert(s.last()));
        assert(t.to_multiset().insert(x).insert(s.last()) =~= t.to_multiset().insert(
            s.last(),
        ).insert(x));
    }
}

/// The stable sort keeps exactly the elements it was given.
pub proof fn lemma_sorted_by_key_permutes<T>(s: Seq<T>, key: spec_fn(T) -> (int, int, int))
    ensures
        sorted_by_key(s, key).to_multiset() == s.to_multiset(),
    decreases s.len(),
{
    broadcast use vstd::seq_lib::to_multiset_build;

    if s.len() > 0 {
        lemma_sorted_by_key_permutes(s.drop_last(), key);
        lemma_insert_by_key_multiset(sorted_by_key(s.drop_last(), key), s.last(), key);
        assert(s.drop_last().push(s.last()) =~= s);
    }
}

} // verus!
