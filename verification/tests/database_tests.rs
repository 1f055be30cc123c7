use astranova::database::{
    Collection, CollectionAuthType, CollectionBodyType, CollectionFolder, Environment, SaveRequestParams,
};

#[test]
fn environment_display() {
    let env = Environment {
        id: 1,
        name: "my-env".to_string(),
        variables: vec![],
        secret_keys: vec![],
        default_endpoint: None,
    };
    assert_eq!(env.to_string(), "my-env");
}

#[test]
fn environment_clone_and_eq() {
    let env = Environment {
        id: 1,
        name: "clone-test".to_string(),
        variables: vec![("k".to_string(), "v".to_string())],
        secret_keys: vec![],
        default_endpoint: None,
    };
    let cloned = env.clone();
    assert_eq!(env, cloned);
}

// Further cases.

#[test]
fn body_type_names_round_trip() {
    let all = [
        CollectionBodyType::NoBody,
        CollectionBodyType::Text,
        CollectionBodyType::Json,
        CollectionBodyType::Xml,
        CollectionBodyType::Html,
        CollectionBodyType::FormUrlencoded,
        CollectionBodyType::Multipart,
        CollectionBodyType::Binary,
        CollectionBodyType::Graphql,
    ];
    for t in all {
        assert_eq!(CollectionBodyType::from_name(&t.to_string()), t);
    }
    assert_eq!(CollectionBodyType::NoBody.to_string(), "none");
    assert_eq!(CollectionBodyType::FormUrlencoded.to_string(), "form_urlencoded");
}

#[test]
fn body_type_aliases_and_unknown() {
    assert_eq!(CollectionBodyType::from_name(""), CollectionBodyType::NoBody);
    assert_eq!(CollectionBodyType::from_name("FORM-DATA"), CollectionBodyType::Multipart);
    assert_eq!(CollectionBodyType::from_name("form"), CollectionBodyType::FormUrlencoded);
    assert_eq!(CollectionBodyType::from_name("octet-stream"), CollectionBodyType::Binary);
    assert_eq!(CollectionBodyType::from_name("yaml"), CollectionBodyType::Text);
}

#[test]
fn auth_type_names_round_trip() {
    let all = [
        CollectionAuthType::NoAuth,
        CollectionAuthType::Basic,
        CollectionAuthType::Bearer,
        CollectionAuthType::ApiKey,
        CollectionAuthType::Oauth2,
        CollectionAuthType::Digest,
    ];
    for t in all {
        assert_eq!(CollectionAuthType::from_name(&t.to_string()), t);
    }
    assert_eq!(CollectionAuthType::from_name("Token"), CollectionAuthType::Bearer);
    assert_eq!(CollectionAuthType::from_name("api-key"), CollectionAuthType::ApiKey);
    assert_eq!(CollectionAuthType::from_name("kerberos"), CollectionAuthType::NoAuth);
    assert_eq!(CollectionAuthType::default(), CollectionAuthType::NoAuth);
    assert_eq!(CollectionBodyType::default(), CollectionBodyType::NoBody);
}

#[test]
fn save_params_new_and_saved_request() {
    let p = SaveRequestParams::new(7, "List", "GET", "https://x.test/items");
    assert_eq!(p.collection_id, 7);
    assert!(p.folder_id.is_none());
    assert_eq!(p.body_type, CollectionBodyType::NoBody);
    let r = p.saved_request(42, 3);
    assert_eq!(r.id, 42);
    assert_eq!(r.sort_order, 4);
    assert_eq!(r.name, "List");
    assert_eq!(r.url, "https://x.test/items");
}

#[test]
fn save_params_imported() {
    let headers = vec![("Accept".to_string(), "*/*".to_string())];
    let params = vec![("q".to_string(), "1".to_string())];
    let p = SaveRequestParams::imported(1, Some(2), "Imp", "POST", "https://x.test", &headers, Some("{}"), &params);
    assert_eq!(p.folder_id, Some(2));
    assert_eq!(p.body.as_deref(), Some("{}"));
    assert_eq!(p.body_type, CollectionBodyType::Text);
    assert_eq!(p.auth_type, CollectionAuthType::NoAuth);
    assert_eq!(p.headers, headers);
    assert_eq!(p.params, params);
}

#[test]
fn collection_and_folder_display() {
    let c = Collection { id: 1, name: "API".to_string(), description: None, sort_order: 0 };
    assert_eq!(c.to_string(), "API");
    let f = CollectionFolder { id: 1, collection_id: 1, name: "Users".to_string(), parent_folder_id: None, sort_order: 0 };
    assert_eq!(f.to_string(), "Users");
}
