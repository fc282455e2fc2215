use cat_service::arkham::{arkham_intelligence_url, handle_upstream_response};
use cat_service::cat::{CreateCat, UpdateCat};
use cat_service::errors::{u16_decimal, Error};
use cat_service::object_id::{to_object_id, ObjectId};
use cat_service::pagination::{Pagination, RequestQuery, DEFAULT_PAGE_SIZE, MAX_PAGE_SIZE};
use cat_service::records::{annotate_addresses, AddressData};
use cat_service::response::CustomResponseBuilder;
use cat_service::service::CatStore;
use cat_service::token::{resolve_user, TokenUser};

fn user(n: u128) -> TokenUser {
    TokenUser {
        id: ObjectId { value: n },
    }
}

fn hex24(n: u128) -> String {
    format!("{:024x}", n)
}

fn query(page: Option<u64>, limit: Option<u64>) -> RequestQuery {
    RequestQuery { page, limit }
}

#[test]
fn pagination_defaults() {
    let p = Pagination::build_from_request_query(&query(None, None));
    assert_eq!(p.offset, 0);
    assert_eq!(p.limit, DEFAULT_PAGE_SIZE);
}

#[test]
fn pagination_formula() {
    let p = Pagination::build_from_request_query(&query(Some(3), Some(20)));
    assert_eq!(p.offset, 40);
    assert_eq!(p.limit, 20);
}

#[test]
fn pagination_clamps() {
    let p = Pagination::build_from_request_query(&query(Some(0), Some(0)));
    assert_eq!(p.offset, 0);
    assert_eq!(p.limit, 1);
    let p = Pagination::build_from_request_query(&query(Some(2), Some(1000)));
    assert_eq!(p.limit, MAX_PAGE_SIZE);
    assert_eq!(p.offset, MAX_PAGE_SIZE);
}

#[test]
fn pagination_count_folds_total() {
    let p = Pagination::build_from_request_query(&query(Some(2), Some(5)));
    let m = p.count(17);
    assert_eq!(m.offset, 5);
    assert_eq!(m.limit, 5);
    assert_eq!(m.total, 17);
}

#[test]
fn object_id_parses_hex() {
    let oid = to_object_id("00000000000000000000000a").unwrap();
    assert_eq!(oid.value, 10);
    let oid = to_object_id("00000000000000000000000A").unwrap();
    assert_eq!(oid.value, 10);
    let oid = to_object_id("ffffffffffffffffffffffff").unwrap();
    assert_eq!(oid.value, (1u128 << 96) - 1);
}

#[test]
fn object_id_rejects_malformed() {
    for bad in ["", "abc", "00000000000000000000000g", "0000000000000000000000001"] {
        match to_object_id(bad) {
            Err(Error::ValidationError(m)) => {
                assert_eq!(m, "invalid object id");
            }
            _ => panic!("malformed id must fail validation"),
        }
    }
}

#[test]
fn decimal_rendering() {
    assert_eq!(u16_decimal(0), "0");
    assert_eq!(u16_decimal(7), "7");
    assert_eq!(u16_decimal(502), "502");
    assert_eq!(u16_decimal(65535), "65535");
}

#[test]
fn error_statuses() {
    assert_eq!(Error::Unauthorized.status_code(), 401);
    assert_eq!(Error::ValidationError(String::from("x")).status_code(), 400);
    assert_eq!(Error::NotFound.status_code(), 404);
    assert_eq!(Error::UpstreamFailure(500, String::from("x")).status_code(), 502);
    assert_eq!(Error::StoreFailure.status_code(), 500);
}

#[test]
fn error_messages() {
    assert_eq!(Error::Unauthorized.message(), "unauthorized");
    assert_eq!(Error::NotFound.message(), "not found");
    assert_eq!(
        Error::UpstreamFailure(500, String::from("boom")).message(),
        "Received a 500 error: boom"
    );
}

#[test]
fn resolve_user_fails_closed() {
    let u = user(9);
    assert_eq!(resolve_user(Some(u)).unwrap().id.value, 9);
    match resolve_user(None) {
        Err(e) => assert_eq!(e.status_code(), 401),
        Ok(_) => panic!("no credential must not resolve"),
    }
}

#[test]
fn builder_default_statuses() {
    let with_body = CustomResponseBuilder::<u64>::new().body(1).build();
    assert_eq!(with_body.status_code, 200);
    assert_eq!(with_body.body, Some(1));
    let empty = CustomResponseBuilder::<u64>::new().build();
    assert_eq!(empty.status_code, 204);
    assert!(empty.body.is_none());
    let explicit = CustomResponseBuilder::<u64>::new().body(1).status_code(201).build();
    assert_eq!(explicit.status_code, 201);
}

#[test]
fn create_with_empty_name_is_rejected() {
    let mut store = CatStore::new();
    match store.create_cat(user(1), CreateCat { name: String::new() }, 100) {
        Err(e) => {
            assert_eq!(e.status_code(), 400);
            assert_eq!(e.message(), "name is required");
        }
        Ok(_) => panic!("empty name must fail validation"),
    }
    assert!(store.cats.is_empty());
}

#[test]
fn create_answers_201_with_the_resource() {
    let mut store = CatStore::new();
    let resp = store
        .create_cat(user(1), CreateCat { name: String::from("Whiskers") }, 100)
        .unwrap();
    assert_eq!(resp.status_code, 201);
    let cat = resp.body.expect("created resource is the body");
    assert_eq!(cat.name, "Whiskers");
    assert_eq!(cat.user.value, 1);
    assert_eq!(cat.created_at, 100);
}

#[test]
fn create_then_get_round_trip() {
    let mut store = CatStore::new();
    let resp = store
        .create_cat(user(7), CreateCat { name: String::from("X") }, 50)
        .unwrap();
    let created = resp.body.unwrap();
    let got = store.get_cat_by_id(user(7), &hex24(created.id.value)).unwrap();
    assert_eq!(got.id.value, created.id.value);
    assert_eq!(got.name, "X");
    assert_eq!(got.user.value, 7);
}

#[test]
fn get_with_malformed_id_is_validation_not_not_found() {
    let store = CatStore::new();
    match store.get_cat_by_id(user(1), "zz") {
        Err(e) => assert_eq!(e.status_code(), 400),
        Ok(_) => panic!("malformed id must fail"),
    }
}

#[test]
fn cross_user_access_is_indistinguishable_from_absence() {
    let mut store = CatStore::new();
    let created = store
        .create_cat(user(1), CreateCat { name: String::from("mine") }, 10)
        .unwrap()
        .body
        .unwrap();
    let foreign_id = hex24(created.id.value);
    let absent_id = hex24(0xdead);
    let intruder = user(2);

    let (s1, m1) = match store.get_cat_by_id(intruder, &foreign_id) {
        Err(e) => (e.status_code(), e.message()),
        Ok(_) => panic!("foreign resource must not be readable"),
    };
    let (s2, m2) = match store.get_cat_by_id(intruder, &absent_id) {
        Err(e) => (e.status_code(), e.message()),
        Ok(_) => panic!("absent resource must not be readable"),
    };
    assert_eq!((s1, m1.clone()), (s2, m2));
    assert_eq!(s1, 404);

    let (s3, m3) = match store.update_cat_by_id(intruder, &foreign_id, UpdateCat { name: None }) {
        Err(e) => (e.status_code(), e.message()),
        Ok(_) => panic!("foreign resource must not be updatable"),
    };
    assert_eq!((s3, m3), (s1, m1.clone()));

    let (s4, m4) = match store.remove_cat_by_id(intruder, &foreign_id) {
        Err(e) => (e.status_code(), e.message()),
        Ok(_) => panic!("foreign resource must not be removable"),
    };
    assert_eq!((s4, m4), (s1, m1));

    // Nothing changed, and the owner still sees the resource.
    assert!(store.get_cat_by_id(user(1), &foreign_id).is_ok());
}

#[test]
fn update_merges_supplied_fields_only() {
    let mut store = CatStore::new();
    let created = store
        .create_cat(user(1), CreateCat { name: String::from("before") }, 10)
        .unwrap()
        .body
        .unwrap();
    let id = hex24(created.id.value);

    let updated = store
        .update_cat_by_id(user(1), &id, UpdateCat { name: Some(String::from("after")) })
        .unwrap();
    assert_eq!(updated.name, "after");
    assert_eq!(updated.id.value, created.id.value);
    assert_eq!(updated.user.value, 1);
    assert_eq!(updated.created_at, 10);

    // An empty patch changes nothing.
    let unchanged = store.update_cat_by_id(user(1), &id, UpdateCat { name: None }).unwrap();
    assert_eq!(unchanged.name, "after");
    assert_eq!(unchanged.created_at, 10);
}

#[test]
fn update_is_idempotent() {
    let mut store = CatStore::new();
    let created = store
        .create_cat(user(1), CreateCat { name: String::from("start") }, 10)
        .unwrap()
        .body
        .unwrap();
    let id = hex24(created.id.value);

    let once = store
        .update_cat_by_id(user(1), &id, UpdateCat { name: Some(String::from("goal")) })
        .unwrap();
    let snapshot: Vec<(u128, u128, String, u64)> = store
        .cats
        .iter()
        .map(|c| (c.id.value, c.user.value, c.name.clone(), c.created_at))
        .collect();
    let twice = store
        .update_cat_by_id(user(1), &id, UpdateCat { name: Some(String::from("goal")) })
        .unwrap();
    let snapshot2: Vec<(u128, u128, String, u64)> = store
        .cats
        .iter()
        .map(|c| (c.id.value, c.user.value, c.name.clone(), c.created_at))
        .collect();
    assert_eq!(once.name, twice.name);
    assert_eq!(once.id.value, twice.id.value);
    assert_eq!(snapshot, snapshot2);
}

#[test]
fn delete_twice_is_204_then_404() {
    let mut store = CatStore::new();
    let created = store
        .create_cat(user(1), CreateCat { name: String::from("gone soon") }, 10)
        .unwrap()
        .body
        .unwrap();
    let id = hex24(created.id.value);

    let resp = store.remove_cat_by_id(user(1), &id).unwrap();
    assert_eq!(resp.status_code, 204);
    assert!(resp.body.is_none());

    match store.remove_cat_by_id(user(1), &id) {
        Err(e) => {
            assert_eq!(e.status_code(), 404);
            assert_eq!(e.message(), "not found");
        }
        Ok(_) => panic!("second delete must be not found"),
    }
}

#[test]
fn list_with_no_resources_is_empty_with_zero_total() {
    let store = CatStore::new();
    let resp = store.query_cats(user(1), &query(None, None)).unwrap();
    assert_eq!(resp.status_code, 200);
    assert!(resp.body.unwrap().is_empty());
    let meta = resp.pagination.unwrap();
    assert_eq!(meta.offset, 0);
    assert_eq!(meta.limit, DEFAULT_PAGE_SIZE);
    assert_eq!(meta.total, 0);
}

#[test]
fn list_is_scoped_to_the_caller() {
    let mut store = CatStore::new();
    store.create_cat(user(1), CreateCat { name: String::from("a") }, 1).unwrap();
    store.create_cat(user(2), CreateCat { name: String::from("b") }, 2).unwrap();
    store.create_cat(user(1), CreateCat { name: String::from("c") }, 3).unwrap();

    let resp = store.query_cats(user(1), &query(None, None)).unwrap();
    let cats = resp.body.unwrap();
    assert_eq!(cats.len(), 2);
    assert!(cats.iter().all(|c| c.user.value == 1));
    assert_eq!(resp.pagination.unwrap().total, 2);
}

#[test]
fn list_orders_newest_first_with_id_tie_break() {
    let mut store = CatStore::new();
    store.create_cat(user(1), CreateCat { name: String::from("old") }, 5).unwrap();
    store.create_cat(user(1), CreateCat { name: String::from("newest") }, 9).unwrap();
    store.create_cat(user(1), CreateCat { name: String::from("middle") }, 7).unwrap();
    // Same timestamp as "middle": the later-assigned (larger) id wins the tie.
    store.create_cat(user(1), CreateCat { name: String::from("middle-later") }, 7).unwrap();

    let resp = store.query_cats(user(1), &query(None, None)).unwrap();
    let names: Vec<String> = resp.body.unwrap().into_iter().map(|c| c.name).collect();
    assert_eq!(names, vec!["newest", "middle-later", "middle", "old"]);
}

#[test]
fn list_pages_with_offset_and_total() {
    let mut store = CatStore::new();
    for (i, t) in [10u64, 20, 30, 40, 50].iter().enumerate() {
        store
            .create_cat(user(1), CreateCat { name: format!("cat{}", i) }, *t)
            .unwrap();
    }
    // Newest first: 50, 40, 30, 20, 10. Page 2 of size 2 is 30, 20.
    let resp = store.query_cats(user(1), &query(Some(2), Some(2))).unwrap();
    let cats = resp.body.unwrap();
    let stamps: Vec<u64> = cats.iter().map(|c| c.created_at).collect();
    assert_eq!(stamps, vec![30, 20]);
    let meta = resp.pagination.unwrap();
    assert_eq!(meta.offset, 2);
    assert_eq!(meta.limit, 2);
    assert_eq!(meta.total, 5);

    // A page past the end is empty, the total unchanged.
    let past = store.query_cats(user(1), &query(Some(9), Some(2))).unwrap();
    assert!(past.body.unwrap().is_empty());
    assert_eq!(past.pagination.unwrap().total, 5);
}

#[test]
fn upstream_success_passes_the_payload_through() {
    let payload = String::from("{\"ethereum\":{}}");
    let out = handle_upstream_response(200, Some(payload.clone())).unwrap();
    assert_eq!(out, payload);
}

#[test]
fn upstream_error_is_echoed_as_502() {
    match handle_upstream_response(500, Some(String::from("Internal Server Error"))) {
        Err(e) => {
            assert_eq!(e.status_code(), 502);
            assert_eq!(e.message(), "Received a 500 error: Internal Server Error");
        }
        Ok(_) => panic!("a 500 upstream answer must fail"),
    }
}

#[test]
fn upstream_unreadable_body_uses_the_placeholder() {
    match handle_upstream_response(404, None) {
        Err(e) => {
            assert_eq!(
                e.message(),
                "Received a 404 error: Could not retrieve response body"
            );
        }
        Ok(_) => panic!("a 404 upstream answer must fail"),
    }
}

#[test]
fn upstream_url_splices_the_address() {
    assert_eq!(
        arkham_intelligence_url("0xdeadbeef"),
        "https://api.arkhamintelligence.com/intelligence/address/0xdeadbeef/all"
    );
}

#[test]
fn records_are_annotated_with_their_address() {
    let records = vec![
        AddressData { name: String::from("alice"), source: String::from("manual") },
        AddressData { name: String::from("bob"), source: String::from("import") },
    ];
    let out = annotate_addresses("0xabc", &records);
    assert_eq!(out.len(), 2);
    assert_eq!(out[0].eth_address, "0xabc");
    assert_eq!(out[0].name, "alice");
    assert_eq!(out[0].source, "manual");
    assert_eq!(out[1].eth_address, "0xabc");
    assert_eq!(out[1].name, "bob");
    assert_eq!(out[1].source, "import");
}
