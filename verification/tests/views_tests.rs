use astranova::collection_view::{CollectionView, Message, TreeItemId};
use astranova::database::{Collection, CollectionFolder, CollectionRequest, CollectionAuthType, CollectionBodyType, RequestHistoryEntry};
use astranova::history_view::{body_preview, entry_labels, HistoryView, Message as HistoryMessage};
use astranova::http::{MultipartField, MultipartValue};
use astranova::request_view::{
    content_type_to_syntax, multipart_entries, response_content_type_to_syntax, BodyType, ContentType,
    MultipartFieldType, RequestStatus, ResponseTab, TabId,
};

fn collection(id: i32, name: &str) -> Collection {
    Collection { id, name: name.to_string(), description: None, sort_order: 0 }
}

fn folder(id: i32, col: i32, parent: Option<i32>, order: i32) -> CollectionFolder {
    CollectionFolder { id, collection_id: col, name: format!("f{}", id), parent_folder_id: parent, sort_order: order }
}

fn saved(id: i32, col: i32, folder: Option<i32>, order: i32) -> CollectionRequest {
    CollectionRequest {
        id,
        collection_id: col,
        folder_id: folder,
        name: format!("r{}", id),
        method: "GET".to_string(),
        url: "https://x.test".to_string(),
        headers: vec![],
        body: None,
        body_type: CollectionBodyType::NoBody,
        auth_type: CollectionAuthType::NoAuth,
        auth_data: None,
        params: vec![],
        config_json: None,
        scripts: None,
        sort_order: order,
    }
}

fn entry(id: i32, method: &str, url: &str) -> RequestHistoryEntry {
    RequestHistoryEntry {
        id,
        method: method.to_string(),
        url: url.to_string(),
        status: Some(200),
        duration_ms: Some(10),
        timestamp: "0".to_string(),
        request_data: None,
        response_data: None,
    }
}

#[test]
fn collection_view_starts_empty() {
    let v = CollectionView::new();
    assert!(v.collections.is_empty());
    assert!(v.selected_item.is_none());
    assert!(v.new_folder_name.is_empty());
}

#[test]
fn sync_collections_resizes_flags() {
    let mut v = CollectionView::new();
    v.sync_collections(&[collection(1, "a"), collection(2, "b")]);
    assert_eq!(v.expanded_collections, vec![false, false]);
    v.update(Message::ToggleCollection(1));
    assert_eq!(v.expanded_collections, vec![false, true]);
    assert_eq!(v.selected_item, Some(TreeItemId::Collection(1)));
    v.sync_collections(&[collection(1, "a")]);
    assert_eq!(v.expanded_collections, vec![false]);
    assert_eq!(v.collections.len(), 1);
}

#[test]
fn sync_folders_sorts_and_replaces() {
    let mut v = CollectionView::new();
    v.sync_folders_for_collection(2, &[folder(20, 2, None, 1)]);
    v.sync_folders_for_collection(1, &[folder(11, 1, Some(5), 0), folder(10, 1, None, 2), folder(12, 1, None, 1)]);
    let ids: Vec<i32> = v.folders.iter().map(|f| f.id).collect();
    assert_eq!(ids, vec![12, 10, 11, 20]);
    assert_eq!(v.expanded_folders.len(), 4);
    v.sync_folders_for_collection(1, &[]);
    let ids: Vec<i32> = v.folders.iter().map(|f| f.id).collect();
    assert_eq!(ids, vec![20]);
    assert_eq!(v.folder_index(20), Some(0));
    assert_eq!(v.folder_index(10), None);
}

#[test]
fn sync_folders_is_stable_for_equal_keys() {
    let mut v = CollectionView::new();
    v.sync_folders_for_collection(1, &[folder(3, 1, None, 0), folder(1, 1, None, 0), folder(2, 1, None, 0)]);
    let ids: Vec<i32> = v.folders.iter().map(|f| f.id).collect();
    assert_eq!(ids, vec![3, 1, 2]);
}

#[test]
fn sync_requests_sorts_by_folder_and_order() {
    let mut v = CollectionView::new();
    v.sync_requests_for_collection(1, &[saved(1, 1, Some(3), 0), saved(2, 1, None, 5), saved(3, 1, None, 1)]);
    let ids: Vec<i32> = v.requests.iter().map(|r| r.id).collect();
    assert_eq!(ids, vec![3, 2, 1]);
    v.sync_requests_for_collection(0, &[saved(9, 0, None, 0)]);
    let ids: Vec<i32> = v.requests.iter().map(|r| r.id).collect();
    assert_eq!(ids, vec![9, 3, 2, 1]);
}

#[test]
fn collection_view_rename_and_move_flow() {
    let mut v = CollectionView::new();
    v.sync_collections(&[collection(1, "API")]);
    v.sync_folders_for_collection(1, &[folder(10, 1, None, 0)]);
    v.sync_requests_for_collection(1, &[saved(5, 1, None, 0)]);
    v.update(Message::StartRenameCollection(0));
    assert_eq!(v.renaming_collection, Some(0));
    assert_eq!(v.rename_collection_value, "API");
    v.update(Message::StartRenameCollection(9));
    assert_eq!(v.renaming_collection, Some(0));
    v.update(Message::CancelRenameCollection);
    assert_eq!(v.renaming_collection, None);
    v.update(Message::StartRenameFolder(10));
    assert_eq!(v.rename_folder_value, "f10");
    v.update(Message::StartRenameRequest(5));
    assert_eq!(v.rename_request_value, "r5");
    v.update(Message::StartMoveToFolder(5));
    assert_eq!(v.moving_request, Some(5));
    assert_eq!(v.moving_collection_id, Some(1));
    v.update(Message::MoveToFolder(5, Some(10)));
    assert_eq!(v.moving_request, None);
    assert_eq!(v.update(Message::LoadRequest(5)), Some(5));
    assert_eq!(v.selected_item, Some(TreeItemId::Request(5)));
    v.update(Message::ToggleFolder(10));
    assert_eq!(v.expanded_folders, vec![true]);
    v.update(Message::ShowNewFolderInput(1, Some(10)));
    assert_eq!(v.new_folder_target, Some(1));
    assert_eq!(v.new_folder_parent, Some(10));
    v.update(Message::NewFolderNameChanged("x".to_string()));
    v.update(Message::HideNewFolderInput);
    assert!(v.new_folder_name.is_empty());
    assert_eq!(v.new_folder_target, None);
    v.update(Message::RequestDeleteFolder(10));
    assert_eq!(v.pending_delete_folder, Some(10));
    assert_eq!(v.update(Message::ConfirmDeleteFolder(10)), None);
    assert_eq!(v.pending_delete_folder, None);
}

#[test]
fn history_filters_by_search_and_method() {
    let mut h = HistoryView::new();
    h.entries = vec![
        entry(1, "GET", "https://API.example.com/users"),
        entry(2, "POST", "https://other.test/"),
        entry(3, "get", "https://other.test/api"),
    ];
    assert_eq!(h.filtered_entries().len(), 3);
    h.update(HistoryMessage::SearchChanged("api".to_string()));
    let ids: Vec<i32> = h.filtered_entries().iter().map(|e| e.id).collect();
    assert_eq!(ids, vec![1, 3]);
    h.update(HistoryMessage::FilterMethod("GET".to_string()));
    let ids: Vec<i32> = h.filtered_entries().iter().map(|e| e.id).collect();
    assert_eq!(ids, vec![1, 3]);
    h.update(HistoryMessage::SearchChanged(String::new()));
    h.update(HistoryMessage::FilterMethod("GET".to_string()));
    assert!(h.filter_method.is_empty());
    h.update(HistoryMessage::FilterMethod("post".to_string()));
    let ids: Vec<i32> = h.filtered_entries().iter().map(|e| e.id).collect();
    assert_eq!(ids, vec![2]);
}

#[test]
fn history_delete_and_clear() {
    let mut h = HistoryView::new();
    h.entries = vec![entry(1, "GET", "a"), entry(2, "GET", "b")];
    h.update(HistoryMessage::ViewResponse(2));
    assert_eq!(h.viewing_response.as_ref().map(|e| e.id), Some(2));
    h.update(HistoryMessage::RequestDeleteEntry(2));
    assert_eq!(h.pending_delete_entry, Some(2));
    h.update(HistoryMessage::ConfirmDeleteEntry(2));
    assert!(h.viewing_response.is_none());
    assert_eq!(h.entries.len(), 1);
    assert_eq!(h.pending_delete_entry, None);
    assert_eq!(h.update(HistoryMessage::ResendEntry(1)), Some(1));
    h.update(HistoryMessage::RequestClearHistory);
    assert!(h.pending_clear_history);
    h.update(HistoryMessage::ConfirmClearHistory);
    assert!(h.entries.is_empty());
    assert!(!h.pending_clear_history);
}

#[test]
fn syntax_choices() {
    assert_eq!(content_type_to_syntax(ContentType::Json), "json");
    assert_eq!(content_type_to_syntax(ContentType::Text), "text");
    assert_eq!(response_content_type_to_syntax("application/json; charset=utf-8"), "json");
    assert_eq!(response_content_type_to_syntax("text/html"), "html");
    assert_eq!(response_content_type_to_syntax("application/xml"), "xml");
    assert_eq!(response_content_type_to_syntax("image/png"), "text");
    assert_eq!(ContentType::Xml.to_string(), "XML");
    assert_eq!(BodyType::Multipart.to_string(), "Multipart/Form-Data");
    assert_eq!(MultipartFieldType::File.to_string(), "File");
    assert_eq!(ContentType::all().len(), 4);
    assert_eq!(BodyType::default(), BodyType::Text);
    assert_eq!(TabId::default(), TabId::Body);
    assert_eq!(ResponseTab::default(), ResponseTab::Body);
    assert!(matches!(RequestStatus::default(), RequestStatus::Idle));
}

#[test]
fn multipart_entries_from_fields() {
    let fields = vec![
        MultipartField { name: "a".to_string(), value: MultipartValue::Text("1".to_string()) },
        MultipartField {
            name: "f".to_string(),
            value: MultipartValue::File { path: "/tmp/x.bin".to_string(), filename: None },
        },
    ];
    let (entries, next) = multipart_entries(&fields);
    assert_eq!(next, 2);
    assert_eq!(entries[0].value, "1");
    assert!(!entries[0].is_file);
    assert_eq!(entries[1].value, "/tmp/x.bin");
    assert!(entries[1].is_file);
    assert_eq!(entries[1].id, 1);
}

#[test]
fn history_entry_labels_and_preview() {
    let e = entry(1, "GET", "u");
    let (s, d) = entry_labels(&e);
    assert_eq!(s, "200");
    assert_eq!(d, "10ms");
    let mut none = entry(2, "GET", "u");
    none.status = None;
    none.duration_ms = None;
    assert_eq!(entry_labels(&none), ("N/A".to_string(), "N/A".to_string()));
    assert_eq!(body_preview("short"), "short");
    let long: String = "x".repeat(2001);
    let p = body_preview(&long);
    assert_eq!(p.len(), 2003);
    assert!(p.ends_with("..."));
    let wide: String = "é".repeat(1500);
    assert_eq!(body_preview(&wide), format!("{}...", wide));
}

#[test]
fn body_emptiness() {
    use_body_empty();
}

fn use_body_empty() {
    assert!(astranova::request_view::is_body_empty(""));
    assert!(astranova::request_view::is_body_empty(" \n\t "));
    assert!(!astranova::request_view::is_body_empty(" {} "));
}
