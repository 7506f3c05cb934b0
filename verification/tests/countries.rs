use foodpipe::country::{build_country_cache, map_country_to_iso_code, matches_country_name,
    normalize_country_codes};

fn codes(text: &str) -> Vec<Vec<u8>> {
    let cache = build_country_cache();
    normalize_country_codes(&cache, text.as_bytes())
}

#[test]
fn mixed_list_resolves_in_order_without_duplicates() {
    let got = codes("en:Germany, USA; world");
    assert_eq!(got, vec![b"de".to_vec(), b"us".to_vec(), b"global".to_vec()]);
}

#[test]
fn kosovo_resolves_through_the_alias_table() {
    assert_eq!(codes("Kosovo"), vec![b"xk".to_vec()]);
}

#[test]
fn unresolvable_text_yields_unknown() {
    assert_eq!(codes("Nonexistent-Place-Zyx"), vec![b"unknown".to_vec()]);
}

#[test]
fn empty_text_yields_unknown() {
    assert_eq!(codes(""), vec![b"unknown".to_vec()]);
    assert_eq!(codes(" , ; | "), vec![b"unknown".to_vec()]);
}

#[test]
fn exact_names_and_codes_resolve() {
    assert_eq!(codes("France"), vec![b"fr".to_vec()]);
    assert_eq!(codes("fr"), vec![b"fr".to_vec()]);
    assert_eq!(codes("Japan|Sweden"), vec![b"jp".to_vec(), b"se".to_vec()]);
}

#[test]
fn colloquial_aliases_resolve() {
    assert_eq!(codes("UK"), vec![b"gb".to_vec()]);
    assert_eq!(codes("usa"), vec![b"us".to_vec()]);
    assert_eq!(codes("Holland"), vec![b"nl".to_vec()]);
    assert_eq!(codes("Czechia"), vec![b"cz".to_vec()]);
}

#[test]
fn duplicates_collapse_to_first_occurrence() {
    assert_eq!(codes("Germany, de, en:germany"), vec![b"de".to_vec()]);
}

#[test]
fn language_prefix_is_stripped_with_hyphens_mapped() {
    let cache = build_country_cache();
    let got = map_country_to_iso_code(&cache, b"en:new-zealand");
    assert_eq!(got, b"nz".to_vec());
}

#[test]
fn world_tokens_map_to_global() {
    let cache = build_country_cache();
    assert_eq!(map_country_to_iso_code(&cache, b"world"), b"global".to_vec());
    assert_eq!(codes("en:world, France"), vec![b"global".to_vec(), b"fr".to_vec()]);
}

#[test]
fn country_name_matching_rules() {
    // Alias hit against the matching code.
    assert!(matches_country_name(b"burma", b"myanmar", b"mm"));
    // Substring containment in either direction.
    assert!(matches_country_name(b"north korea", b"korea", b"kp"));
    assert!(matches_country_name(b"guern", b"guernsey", b"gg"));
    // No relation at all.
    assert!(!matches_country_name(b"atlantis", b"iceland", b"is"));
}
