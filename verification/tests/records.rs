use foodpipe::country::build_country_cache;
use foodpipe::entity::{extract_identifier, process_single_record};
use foodpipe::schema::{build_column_map, find_column, get_text_field};
use foodpipe::serving::parse_serving;

fn row(cells: &[&str]) -> Vec<Vec<u8>> {
    cells.iter().map(|c| c.as_bytes().to_vec()).collect()
}

#[test]
fn identifier_keeps_digits_only() {
    assert_eq!(extract_identifier(b"abc123-45"), b"12345".to_vec());
    assert_eq!(extract_identifier(b"abc"), b"".to_vec());
    assert_eq!(extract_identifier(b"0001"), b"0001".to_vec());
}

#[test]
fn non_numeric_identifier_rejects_the_row() {
    let header = row(&["code", "energy-kcal_100g", "fat_100g"]);
    let cm = build_column_map(&header);
    let cache = build_country_cache();
    let r = process_single_record(&row(&["abc", "100", "10"]), &cm, &cache);
    assert!(r.is_none());
}

#[test]
fn missing_energy_rejects_despite_fat_and_protein() {
    let header = row(&["code", "fat_100g", "proteins_100g"]);
    let cm = build_column_map(&header);
    let cache = build_country_cache();
    let r = process_single_record(&row(&["123", "10", "5"]), &cm, &cache);
    assert!(r.is_none());
}

#[test]
fn per100g_sufficiency_accepts() {
    let header = row(&[
        "code",
        "energy-kcal_100g",
        "carbohydrates_100g",
        "fat_100g",
        "proteins_100g",
    ]);
    let cm = build_column_map(&header);
    let cache = build_country_cache();
    let out = process_single_record(&row(&["777", "100", "20", "0", "5"]), &cm, &cache)
        .expect("row must be accepted under the per-100g rule");
    assert_eq!(out.product.code, b"777".to_vec());
    assert_eq!(out.country_codes, vec![b"unknown".to_vec()]);
    assert_eq!(out.catalog_lines.len(), 1);
    assert_eq!(out.catalog_lines[0].0, b"unknown".to_vec());
    assert_eq!(
        out.catalog_lines[0].1,
        br#"["777",null,null,"unknown",100,"g",null,20,0,5]"#.to_vec()
    );
}

#[test]
fn catalog_line_is_valid_json() {
    let header = row(&["code", "energy-kcal_100g", "proteins_100g", "product_name"]);
    let cm = build_column_map(&header);
    let cache = build_country_cache();
    let out = process_single_record(&row(&["5", "42", "3", "Oat Bar"]), &cm, &cache).unwrap();
    let v: serde_json::Value = serde_json::from_slice(&out.catalog_lines[0].1).unwrap();
    assert_eq!(v[0], serde_json::Value::String("5".to_string()));
    assert_eq!(v[1], serde_json::Value::String("Oat Bar".to_string()));
}

#[test]
fn product_document_holds_the_breakdown() {
    let header = row(&[
        "code",
        "product_name",
        "brands",
        "main_category",
        "countries",
        "energy-kcal_100g",
        "fat_100g",
        "sugars_100g",
    ]);
    let cm = build_column_map(&header);
    let cache = build_country_cache();
    let out = process_single_record(
        &row(&["31337", " Choco ", "BrandX", "snacks", "France", "450", "21", "30.5"]),
        &cm,
        &cache,
    )
    .unwrap();
    let v: serde_json::Value = serde_json::from_slice(&out.product_json).unwrap();
    assert_eq!(v["code"], serde_json::Value::String("31337".to_string()));
    assert_eq!(v["product_name"], serde_json::Value::String("Choco".to_string()));
    assert_eq!(v["brands"], serde_json::Value::String("BrandX".to_string()));
    assert_eq!(v["macros"]["per100g"]["energy_kcal"].as_f64(), Some(450.0));
    assert_eq!(v["macros"]["per100g"]["sugars"].as_f64(), Some(30.5));
    assert!(v["macros"]["per100g"]["salt"].is_null());
    assert_eq!(out.country_codes, vec![b"fr".to_vec()]);
}

#[test]
fn per100g_fallback_when_serving_basis_incomplete() {
    let header = row(&[
        "code",
        "serving_size",
        "energy-kcal_serving",
        "fiber_serving",
        "carbohydrates_serving",
        "fat_serving",
        "proteins_serving",
        "energy-kcal_100g",
        "carbohydrates_100g",
    ]);
    let cm = build_column_map(&header);
    let cache = build_country_cache();
    let out = process_single_record(
        &row(&["9", "25 g", "120", "1", "14", "6", "2", "480", "56"]),
        &cm,
        &cache,
    )
    .unwrap();
    // The serving_size text "25 g" is not itself numeric, so the raw
    // size is absent, the serving basis is incomplete, and per-100g
    // wins even though every serving nutrient is present.
    assert_eq!(
        out.catalog_lines[0].1,
        br#"["9",null,null,"unknown",100,"g",null,56,null,null]"#.to_vec()
    );
}

#[test]
fn ragged_rows_read_missing_cells_as_absent() {
    let header = row(&["code", "product_name", "energy-kcal_100g", "fat_100g"]);
    let cm = build_column_map(&header);
    let cache = build_country_cache();
    // Row shorter than the header: energy missing, row rejected.
    assert!(process_single_record(&row(&["12", "X"]), &cm, &cache).is_none());
    // Extra cells beyond the header are ignored.
    let out = process_single_record(&row(&["12", "X", "80", "3", "junk"]), &cm, &cache);
    assert!(out.is_some());
}

#[test]
fn column_lookup_and_field_access() {
    let header = row(&["code", "brands", "countries"]);
    assert_eq!(find_column(&header, b"brands"), Some(1));
    assert_eq!(find_column(&header, b"missing"), None);
    let r = row(&["1", "  Acme  ", ""]);
    assert_eq!(get_text_field(&r, Some(1)), Some(b"Acme".to_vec()));
    assert_eq!(get_text_field(&r, Some(2)), None);
    assert_eq!(get_text_field(&r, None), None);
    assert_eq!(get_text_field(&r, Some(9)), None);
}

#[test]
fn serving_parse_quantity_and_unit() {
    let size = Some(b"approx 330 ml".to_vec());
    let info = parse_serving(&size, &None);
    assert_eq!(info.raw_size, None);
    assert_eq!(info.quantity, foodpipe::num::parse_number(b"330"));
    assert_eq!(info.unit, Some(b"ml".to_vec()));

    // A dedicated numeric quantity field wins.
    let info2 = parse_serving(&Some(b"2 portions of 30 g".to_vec()), &Some(b"60".to_vec()));
    assert_eq!(info2.quantity, foodpipe::num::parse_number(b"60"));
    assert_eq!(info2.unit, Some(b"g".to_vec()));

    // The unit must stand at word boundaries.
    let info3 = parse_serving(&Some(b"100 grams".to_vec()), &None);
    assert_eq!(info3.unit, Some(b"grams".to_vec()));
    let info4 = parse_serving(&Some(b"1 glass".to_vec()), &None);
    assert_eq!(info4.unit, None);
}

#[test]
fn unit_matching_ignores_case() {
    let info = parse_serving(&Some(b"30 G".to_vec()), &None);
    assert_eq!(info.unit, Some(b"g".to_vec()));
    let info2 = parse_serving(&Some(b"250 ML".to_vec()), &None);
    assert_eq!(info2.unit, Some(b"ml".to_vec()));
    let info3 = parse_serving(&Some(b"2 MilliLiters".to_vec()), &None);
    assert_eq!(info3.unit, Some(b"milliliters".to_vec()));
}
