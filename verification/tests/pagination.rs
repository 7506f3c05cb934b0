use foodpipe::index::{meta_json, page_json, page_path, shard_of, slug_of, IndexItem,
    PaginatedIndex};

fn item(code: &str) -> IndexItem {
    IndexItem {
        code: code.as_bytes().to_vec(),
        name: None,
        brand: None,
        path: format!("products/{}.json", code).into_bytes(),
    }
}

#[test]
fn exactly_one_full_page() {
    let mut idx = PaginatedIndex::new(3);
    for c in ["1", "2", "3"] {
        idx.add(b"snacks", item(c));
    }
    let out = idx.finalize();
    assert_eq!(out.len(), 1);
    let k = &out[0];
    assert_eq!(k.total_pages, 1);
    assert_eq!(k.count, 3);
    assert_eq!(k.pages.len(), 1);
    assert_eq!(k.pages[0].number, 1);
    assert_eq!(k.pages[0].prev_page, None);
    assert_eq!(k.pages[0].next_page, None);
    assert_eq!(k.pages[0].items.len(), 3);
}

#[test]
fn overflow_makes_two_linked_pages() {
    let mut idx = PaginatedIndex::new(3);
    for c in ["1", "2", "3", "4"] {
        idx.add(b"snacks", item(c));
    }
    let out = idx.finalize();
    assert_eq!(out.len(), 1);
    let k = &out[0];
    assert_eq!(k.total_pages, 2);
    assert_eq!(k.count, 4);
    assert_eq!(k.pages.len(), 2);
    assert_eq!(k.pages[0].next_page, Some(2));
    assert_eq!(k.pages[1].prev_page, Some(1));
    assert_eq!(k.pages[1].next_page, None);
    assert_eq!(k.pages[0].items.len(), 3);
    assert_eq!(k.pages[1].items.len(), 1);
}

#[test]
fn finalize_twice_is_byte_identical() {
    let mut idx = PaginatedIndex::new(2);
    for c in ["1", "2", "3"] {
        idx.add(b"drinks", item(c));
    }
    idx.add(b"snacks", item("9"));
    let first = idx.finalize();
    let second = idx.finalize();
    assert_eq!(first.len(), second.len());
    for (a, b) in first.iter().zip(second.iter()) {
        assert_eq!(meta_json(a), meta_json(b));
        assert_eq!(a.pages.len(), b.pages.len());
        for (pa, pb) in a.pages.iter().zip(b.pages.iter()) {
            assert_eq!(page_json(pa), page_json(pb));
        }
    }
}

#[test]
fn keys_keep_insertion_order() {
    let mut idx = PaginatedIndex::new(10);
    idx.add(b"b-key", item("1"));
    idx.add(b"a-key", item("2"));
    idx.add(b"b-key", item("3"));
    let out = idx.finalize();
    assert_eq!(out.len(), 2);
    assert_eq!(out[0].key, b"b-key".to_vec());
    assert_eq!(out[1].key, b"a-key".to_vec());
    assert_eq!(out[0].count, 2);
    assert_eq!(out[1].count, 1);
}

#[test]
fn page_json_shape() {
    let mut idx = PaginatedIndex::new(2);
    idx.add(b"snacks", item("11"));
    let out = idx.finalize();
    let bytes = page_json(&out[0].pages[0]);
    let v: serde_json::Value = serde_json::from_slice(&bytes).unwrap();
    assert_eq!(v["page"].as_u64(), Some(1));
    assert!(v["prev"].is_null());
    assert!(v["next"].is_null());
    assert_eq!(v["count"].as_u64(), Some(1));
    assert_eq!(v["total_pages"].as_u64(), Some(1));
    assert_eq!(v["items"][0]["code"], serde_json::Value::String("11".to_string()));
    assert_eq!(
        v["items"][0]["path"],
        serde_json::Value::String("products/11.json".to_string())
    );

    let meta = meta_json(&out[0]);
    let m: serde_json::Value = serde_json::from_slice(&meta).unwrap();
    assert_eq!(m["tag"], serde_json::Value::String("snacks".to_string()));
    assert_eq!(m["count"].as_u64(), Some(1));
    assert_eq!(m["page_size"].as_u64(), Some(2));
    assert_eq!(m["total_pages"].as_u64(), Some(1));
}

#[test]
fn slugs_shards_and_paths() {
    assert_eq!(slug_of(b"Fruits & Vegetables"), b"fruits-vegetables".to_vec());
    assert_eq!(slug_of(b"  Dairy  "), b"dairy".to_vec());
    assert_eq!(slug_of(b"!!"), b"".to_vec());
    assert_eq!(shard_of(b"fruits-vegetables"), b"fr".to_vec());
    assert_eq!(shard_of(b"a"), b"00".to_vec());
    assert_eq!(
        page_path(b"fr", b"fruits-vegetables", 1),
        b"fr/fruits-vegetables/page-0001.json".to_vec()
    );
    assert_eq!(
        page_path(b"fr", b"fruits-vegetables", 12345),
        b"fr/fruits-vegetables/page-12345.json".to_vec()
    );
    assert_eq!(
        foodpipe::index::meta_path(b"fr", b"fruits-vegetables"),
        b"fr/fruits-vegetables/_meta.json".to_vec()
    );
}
