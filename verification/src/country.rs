//! Geographic code resolution: free-text country strings are mapped to
//! lowercase ISO alpha-2 codes (or the sentinels `global` / `unknown`)
//! through an exact-match cache, an alias table and a substring fallback
//! over the canonical ISO name list.

use vstd::prelude::*;
use vstd::string::StringSliceAdditionalSpecFns;
use crate::textutil::{
    contains_bytes, contains_spec, eq_bytes, lower_byte, lower_bytes, to_lower, trim, trim_spec,
};

verus! {

/// View of a vector of byte-string pairs.
pub open spec fn pairs_model(v: Seq<(Vec<u8>, Vec<u8>)>) -> Seq<(Seq<u8>, Seq<u8>)> {
    Seq::new(v.len(), |i: int| (v[i].0@, v[i].1@))
}

/// View of a vector of byte strings.
pub open spec fn codes_model(v: Seq<Vec<u8>>) -> Seq<Seq<u8>> {
    Seq::new(v.len(), |i: int| v[i]@)
}

/// Token separators: comma, semicolon, pipe.
pub open spec fn is_sep(b: u8) -> bool {
    b == 44 || b == 59 || b == 124
}

/// Split a byte string on separators, keeping empty fragments.
pub open spec fn split_raw(s: Seq<u8>) -> Seq<Seq<u8>>
    decreases s.len(),
{
    if s.len() == 0 {
        seq![Seq::<u8>::empty()]
    } else {
        let r = split_raw(s.drop_last());
        let b = s.last();
        if is_sep(b) {
            r.push(Seq::empty())
        } else {
            r.update(r.len() - 1, r.last().push(b))
        }
    }
}

pub proof fn lemma_split_raw_len(s: Seq<u8>)
    ensures
        split_raw(s).len() >= 1,
    decreases s.len(),
{
    if s.len() > 0 {
        lemma_split_raw_len(s.drop_last());
    }
}

pub proof fn lemma_split_raw_step(s: Seq<u8>, b: u8)
    ensures
        is_sep(b) ==> split_raw(s.push(b)) == split_raw(s).push(Seq::<u8>::empty()),
        !is_sep(b) ==> split_raw(s.push(b)) == split_raw(s).update(
            split_raw(s).len() - 1,
            split_raw(s).last().push(b),
        ),
{
    assert(s.push(b).drop_last() =~= s);
    assert(s.push(b).last() == b);
}

/// A raw token is cleaned by trimming ASCII whitespace and lowercasing.
pub open spec fn clean_token(t: Seq<u8>) -> Seq<u8> {
    lower_bytes(trim_spec(t))
}

/// Index of the first colon, or the length when there is none.
pub open spec fn first_colon(s: Seq<u8>) -> int
    decreases s.len(),
{
    if s.len() == 0 {
        0
    } else if s[0] == 58 {
        0
    } else {
        1 + first_colon(s.drop_first())
    }
}

pub proof fn lemma_first_colon(s: Seq<u8>)
    ensures
        0 <= first_colon(s) <= s.len(),
        first_colon(s) < s.len() ==> s[first_colon(s)] == 58,
        forall|j: int| 0 <= j < first_colon(s) ==> s[j] != 58,
    decreases s.len(),
{
    if s.len() > 0 && s[0] != 58 {
        lemma_first_colon(s.drop_first());
        assert(forall|j: int| 1 <= j < first_colon(s) ==> s[j] == s.drop_first()[j - 1]);
    }
}

/// Hyphens become spaces.
pub open spec fn map_hyphens(s: Seq<u8>) -> Seq<u8> {
    s.map_values(|b: u8| if b == 45 { 32u8 } else { b })
}

/// Strip an optional `language:` prefix; only then are hyphens in the
/// remainder replaced by spaces.
pub open spec fn strip_lang(t: Seq<u8>) -> Seq<u8> {
    let i = first_colon(t);
    if i < t.len() {
        map_hyphens(t.subrange(i + 1, t.len() as int))
    } else {
        t
    }
}

/// First value whose key equals `key`, scanning in order.
pub open spec fn lookup_spec(tab: Seq<(Seq<u8>, Seq<u8>)>, key: Seq<u8>) -> Option<Seq<u8>>
    decreases tab.len(),
{
    if tab.len() == 0 {
        None
    } else if tab[0].0 == key {
        Some(tab[0].1)
    } else {
        lookup_spec(tab.drop_first(), key)
    }
}

/// The fixed alias table: colloquial names and historical spellings mapped
/// to lowercase alpha-2 codes, including codes absent from the ISO list.
pub open spec fn alias_model() -> Seq<(Seq<u8>, Seq<u8>)> {
    seq![
        ("united states".spec_bytes(), "us".spec_bytes()),
        ("usa".spec_bytes(), "us".spec_bytes()),
        ("united states of america".spec_bytes(), "us".spec_bytes()),
        ("united kingdom".spec_bytes(), "gb".spec_bytes()),
        ("uk".spec_bytes(), "gb".spec_bytes()),
        ("great britain".spec_bytes(), "gb".spec_bytes()),
        ("britain".spec_bytes(), "gb".spec_bytes()),
        ("germany".spec_bytes(), "de".spec_bytes()),
        ("deutschland".spec_bytes(), "de".spec_bytes()),
        ("netherlands".spec_bytes(), "nl".spec_bytes()),
        ("holland".spec_bytes(), "nl".spec_bytes()),
        ("switzerland".spec_bytes(), "ch".spec_bytes()),
        ("schweiz".spec_bytes(), "ch".spec_bytes()),
        ("brazil".spec_bytes(), "br".spec_bytes()),
        ("brasil".spec_bytes(), "br".spec_bytes()),
        ("south korea".spec_bytes(), "kr".spec_bytes()),
        ("korea".spec_bytes(), "kr".spec_bytes()),
        ("czech republic".spec_bytes(), "cz".spec_bytes()),
        ("czechia".spec_bytes(), "cz".spec_bytes()),
        ("congo".spec_bytes(), "cg".spec_bytes()),
        ("democratic republic of the congo".spec_bytes(), "cd".spec_bytes()),
        ("drc".spec_bytes(), "cd".spec_bytes()),
        ("cape verde".spec_bytes(), "cv".spec_bytes()),
        ("cabo verde".spec_bytes(), "cv".spec_bytes()),
        ("ivory coast".spec_bytes(), "ci".spec_bytes()),
        ("cote d'ivoire".spec_bytes(), "ci".spec_bytes()),
        ("myanmar".spec_bytes(), "mm".spec_bytes()),
        ("burma".spec_bytes(), "mm".spec_bytes()),
        ("united arab emirates".spec_bytes(), "ae".spec_bytes()),
        ("uae".spec_bytes(), "ae".spec_bytes()),
        ("french guiana".spec_bytes(), "gf".spec_bytes()),
        ("north macedonia".spec_bytes(), "mk".spec_bytes()),
        ("kosovo".spec_bytes(), "xk".spec_bytes()),
    ]
}

/// Every alias value is a lowercase two-letter code.
#[verifier::rlimit(100)]
pub proof fn lemma_alias_value_shapes()
    ensures
        forall|i: int|
            0 <= i < alias_model().len() ==> lower2((#[trigger] alias_model()[i]).1),
{
    broadcast use vstd::utf8::is_ascii_chars_encode_utf8;

    reveal_strlit("us");
    assert(vstd::utf8::is_ascii_chars("us"@));
    assert(lower2("us".spec_bytes()));
    reveal_strlit("gb");
    assert(vstd::utf8::is_ascii_chars("gb"@));
    assert(lower2("gb".spec_bytes()));
    reveal_strlit("de");
    assert(vstd::utf8::is_ascii_chars("de"@));
    assert(lower2("de".spec_bytes()));
    reveal_strlit("nl");
    assert(vstd::utf8::is_ascii_chars("nl"@));
    assert(lower2("nl".spec_bytes()));
    reveal_strlit("ch");
    assert(vstd::utf8::is_ascii_chars("ch"@));
    assert(lower2("ch".spec_bytes()));
    reveal_strlit("br");
    assert(vstd::utf8::is_ascii_chars("br"@));
    assert(lower2("br".spec_bytes()));
    reveal_strlit("kr");
    assert(vstd::utf8::is_ascii_chars("kr"@));
    assert(lower2("kr".spec_bytes()));
    reveal_strlit("cz");
    assert(vstd::utf8::is_ascii_chars("cz"@));
    assert(lower2("cz".spec_bytes()));
    reveal_strlit("cg");
    assert(vstd::utf8::is_ascii_chars("cg"@));
    assert(lower2("cg".spec_bytes()));
    reveal_strlit("cd");
    assert(vstd::utf8::is_ascii_chars("cd"@));
    assert(lower2("cd".spec_bytes()));
    reveal_strlit("cv");
    assert(vstd::utf8::is_ascii_chars("cv"@));
    assert(lower2("cv".spec_bytes()));
    reveal_strlit("ci");
    assert(vstd::utf8::is_ascii_chars("ci"@));
    assert(lower2("ci".spec_bytes()));
    reveal_strlit("mm");
    assert(vstd::utf8::is_ascii_chars("mm"@));
    assert(lower2("mm".spec_bytes()));
    reveal_strlit("ae");
    assert(vstd::utf8::is_ascii_chars("ae"@));
    assert(lower2("ae".spec_bytes()));
    reveal_strlit("gf");
    assert(vstd::utf8::is_ascii_chars("gf"@));
    assert(lower2("gf".spec_bytes()));
    reveal_strlit("mk");
    assert(vstd::utf8::is_ascii_chars("mk"@));
    assert(lower2("mk".spec_bytes()));
    reveal_strlit("xk");
    assert(vstd::utf8::is_ascii_chars("xk"@));
    assert(lower2("xk".spec_bytes()));
}

/// A cleaned token matches one ISO entry when the alias table sends it to
/// that entry's code, or when token and name contain one another.
pub open spec fn match_entry_spec(t: Seq<u8>, name: Seq<u8>, code: Seq<u8>) -> bool {
    ||| lookup_spec(alias_model(), t) == Some(code)
    ||| contains_spec(name, t)
    ||| contains_spec(t, name)
}

/// First ISO entry (in canonical list order) matched by the token.
pub open spec fn scan_names_spec(names: Seq<(Seq<u8>, Seq<u8>)>, t: Seq<u8>) -> Option<Seq<u8>>
    decreases names.len(),
{
    if names.len() == 0 {
        None
    } else if match_entry_spec(t, names[0].0, names[0].1) {
        Some(names[0].1)
    } else {
        scan_names_spec(names.drop_first(), t)
    }
}

/// Resolution of one cleaned, non-empty token against the cache.
pub open spec fn resolve_token_spec(
    exact: Seq<(Seq<u8>, Seq<u8>)>,
    names: Seq<(Seq<u8>, Seq<u8>)>,
    tok: Seq<u8>,
) -> Seq<u8> {
    if contains_spec(tok, "world".spec_bytes()) {
        "global".spec_bytes()
    } else {
        let t = strip_lang(tok);
        match lookup_spec(exact, t) {
            Some(code) => code,
            None => match scan_names_spec(names, t) {
                Some(code) => code,
                None => "unknown".spec_bytes(),
            },
        }
    }
}

/// A looked-up value comes from the table.
proof fn lemma_lookup_value(tab: Seq<(Seq<u8>, Seq<u8>)>, key: Seq<u8>)
    ensures
        match lookup_spec(tab, key) {
            Some(v) => exists|i: int| 0 <= i < tab.len() && (#[trigger] tab[i]).1 == v,
            None => true,
        },
    decreases tab.len(),
{
    if tab.len() > 0 && tab[0].0 != key {
        lemma_lookup_value(tab.drop_first(), key);
        match lookup_spec(tab, key) {
            Some(v) => {
                let j = choose|j: int|
                    0 <= j < tab.drop_first().len() && (#[trigger] tab.drop_first()[j]).1 == v;
                assert(tab[j + 1].1 == v);
            },
            None => {},
        }
    }
}

/// A scanned value comes from the name list.
proof fn lemma_scan_value(names: Seq<(Seq<u8>, Seq<u8>)>, t: Seq<u8>)
    ensures
        match scan_names_spec(names, t) {
            Some(v) => exists|i: int| 0 <= i < names.len() && (#[trigger] names[i]).1 == v,
            None => true,
        },
    decreases names.len(),
{
    if names.len() > 0 && !match_entry_spec(t, names[0].0, names[0].1) {
        lemma_scan_value(names.drop_first(), t);
        match scan_names_spec(names, t) {
            Some(v) => {
                let j = choose|j: int|
                    0 <= j < names.drop_first().len() && (#[trigger] names.drop_first()[j]).1
                        == v;
                assert(names[j + 1].1 == v);
            },
            None => {},
        }
    }
}

/// What resolution can hand out: a sentinel or a lowercase code.
pub open spec fn code_shape(c: Seq<u8>) -> bool {
    ||| c == "global".spec_bytes()
    ||| c == "unknown".spec_bytes()
    ||| lower2(c)
}

/// Over a cache whose values are all lowercase two-letter codes, every
/// resolved token is `global`, `unknown`, or such a code.
pub proof fn lemma_resolve_shape(
    exact: Seq<(Seq<u8>, Seq<u8>)>,
    names: Seq<(Seq<u8>, Seq<u8>)>,
    tok: Seq<u8>,
)
    requires
        forall|i: int| 0 <= i < exact.len() ==> lower2((#[trigger] exact[i]).1),
        forall|i: int| 0 <= i < names.len() ==> lower2((#[trigger] names[i]).1),
    ensures
        code_shape(resolve_token_spec(exact, names, tok)),
{
    if !contains_spec(tok, "world".spec_bytes()) {
        let t = strip_lang(tok);
        lemma_lookup_value(exact, t);
        match lookup_spec(exact, t) {
            Some(_) => {},
            None => {
                lemma_scan_value(names, t);
            },
        }
    }
}

proof fn lemma_accum_shape(
    exact: Seq<(Seq<u8>, Seq<u8>)>,
    names: Seq<(Seq<u8>, Seq<u8>)>,
    acc: Seq<Seq<u8>>,
    toks: Seq<Seq<u8>>,
)
    requires
        forall|i: int| 0 <= i < exact.len() ==> lower2((#[trigger] exact[i]).1),
        forall|i: int| 0 <= i < names.len() ==> lower2((#[trigger] names[i]).1),
        forall|i: int| 0 <= i < acc.len() ==> code_shape(#[trigger] acc[i]),
    ensures
        forall|i: int|
            0 <= i < accum_tokens(exact, names, acc, toks).len() ==> code_shape(
                #[trigger] accum_tokens(exact, names, acc, toks)[i],
            ),
    decreases toks.len(),
{
    if toks.len() > 0 {
        lemma_accum_shape(exact, names, acc, toks.drop_last());
        let mid = accum_tokens(exact, names, acc, toks.drop_last());
        let ct = clean_token(toks.last());
        if ct.len() > 0 {
            lemma_resolve_shape(exact, names, ct);
            let code = resolve_token_spec(exact, names, ct);
            if !mid.contains(code) {
                assert(forall|i: int|
                    0 <= i < mid.push(code).len() ==> code_shape(#[trigger] mid.push(code)[i]));
            }
        }
    }
}

/// Every element of a normalization result is `global`, `unknown`, or a
/// lowercase two-letter code, provided the cache only holds such codes.
pub proof fn lemma_normalize_shape(
    exact: Seq<(Seq<u8>, Seq<u8>)>,
    names: Seq<(Seq<u8>, Seq<u8>)>,
    s: Seq<u8>,
)
    requires
        forall|i: int| 0 <= i < exact.len() ==> lower2((#[trigger] exact[i]).1),
        forall|i: int| 0 <= i < names.len() ==> lower2((#[trigger] names[i]).1),
    ensures
        forall|i: int|
            0 <= i < normalize_spec(exact, names, s).len() ==> code_shape(
                #[trigger] normalize_spec(exact, names, s)[i],
            ),
{
    reveal(normalize_spec);
    lemma_accum_shape(exact, names, Seq::empty(), split_raw(s));
}

/// Fold one raw token into the accumulated, duplicate-free code list.
pub open spec fn accum_token(
    exact: Seq<(Seq<u8>, Seq<u8>)>,
    names: Seq<(Seq<u8>, Seq<u8>)>,
    acc: Seq<Seq<u8>>,
    raw: Seq<u8>,
) -> Seq<Seq<u8>> {
    let ct = clean_token(raw);
    if ct.len() == 0 {
        acc
    } else {
        let code = resolve_token_spec(exact, names, ct);
        if acc.contains(code) {
            acc
        } else {
            acc.push(code)
        }
    }
}

pub open spec fn accum_tokens(
    exact: Seq<(Seq<u8>, Seq<u8>)>,
    names: Seq<(Seq<u8>, Seq<u8>)>,
    acc: Seq<Seq<u8>>,
    toks: Seq<Seq<u8>>,
) -> Seq<Seq<u8>>
    decreases toks.len(),
{
    if toks.len() == 0 {
        acc
    } else {
        accum_token(exact, names, accum_tokens(exact, names, acc, toks.drop_last()), toks.last())
    }
}

/// The meaning of `normalize_country_codes`: resolve every token, keep the
/// first occurrence of each code, and fall back to `unknown` when nothing
/// resolves.
#[verifier::opaque]
pub open spec fn normalize_spec(
    exact: Seq<(Seq<u8>, Seq<u8>)>,
    names: Seq<(Seq<u8>, Seq<u8>)>,
    s: Seq<u8>,
) -> Seq<Seq<u8>> {
    let codes = accum_tokens(exact, names, Seq::empty(), split_raw(s));
    if codes.len() == 0 {
        seq!["unknown".spec_bytes()]
    } else {
        codes
    }
}

/// No value occurs twice.
pub open spec fn distinct_codes(s: Seq<Seq<u8>>) -> bool {
    forall|i: int, j: int| 0 <= i < j < s.len() ==> s[i] != s[j]
}

proof fn lemma_accum_distinct(
    exact: Seq<(Seq<u8>, Seq<u8>)>,
    names: Seq<(Seq<u8>, Seq<u8>)>,
    acc: Seq<Seq<u8>>,
    toks: Seq<Seq<u8>>,
)
    requires
        distinct_codes(acc),
    ensures
        distinct_codes(accum_tokens(exact, names, acc, toks)),
    decreases toks.len(),
{
    if toks.len() > 0 {
        lemma_accum_distinct(exact, names, acc, toks.drop_last());
        let mid = accum_tokens(exact, names, acc, toks.drop_last());
        let ct = clean_token(toks.last());
        if ct.len() > 0 {
            let code = resolve_token_spec(exact, names, ct);
            if !mid.contains(code) {
                assert forall|i: int, j: int|
                    0 <= i < j < mid.push(code).len() implies mid.push(code)[i] != mid.push(
                    code,
                )[j] by {
                    if j == mid.len() {
                        assert(mid[i] != code) by {
                            if mid[i] == code {
                                assert(mid.contains(code));
                            }
                        }
                    }
                }
            }
        }
    }
}

/// Resolution never repeats a code: every result of `normalize_spec`
/// lists each country at most once, in first-seen order.
pub proof fn lemma_normalize_distinct(
    exact: Seq<(Seq<u8>, Seq<u8>)>,
    names: Seq<(Seq<u8>, Seq<u8>)>,
    s: Seq<u8>,
)
    ensures
        distinct_codes(normalize_spec(exact, names, s)),
{
    reveal(normalize_spec);
    lemma_accum_distinct(exact, names, Seq::empty(), split_raw(s));
}

/// The country cache: an exact-match table (lowercased ISO names, alpha-2
/// codes and the alias table) plus the lowercased canonical name list for
/// the substring fallback.  Built once, read-only afterwards.
pub struct CountryCache {
    pub exact: Vec<(Vec<u8>, Vec<u8>)>,
    pub names: Vec<(Vec<u8>, Vec<u8>)>,
}

/// Relies on `iso3166::LIST`: the canonical ISO 3166 country list in its
/// defined order.  Each entry is projected to `(name, alpha2)` bytes; the
/// list has 248 entries and every alpha-2 code is two uppercase ASCII
/// letters, as the crate's data tables show.
#[verifier::external_body]
fn iso_country_list() -> (r: Vec<(Vec<u8>, Vec<u8>)>)
    ensures
        r@.len() == 248,
        forall|i: int| 0 <= i < r@.len() ==> (#[trigger] r@[i]).1@.len() == 2,
        forall|i: int, k: int|
            0 <= i < r@.len() && 0 <= k < 2 ==> 65 <= (#[trigger] r@[i].1@[k]) <= 90,
{
    iso3166::LIST
        .iter()
        .map(|c| (c.name.as_bytes().to_vec(), c.alpha2.as_bytes().to_vec()))
        .collect()
}

/// Duplicate a byte string.
fn dup(v: &Vec<u8>) -> (r: Vec<u8>)
    ensures
        r@ == v@,
{
    vstd::slice::slice_to_vec(v.as_slice())
}

/// Build the alias table as executable data.
#[verifier::rlimit(60)]
fn build_alias_table() -> (r: Vec<(Vec<u8>, Vec<u8>)>)
    ensures
        pairs_model(r@) == alias_model(),
{
    let mut r: Vec<(Vec<u8>, Vec<u8>)> = Vec::new();
    r.push((crate::textutil::str_bytes("united states"), crate::textutil::str_bytes("us")));
    r.push((crate::textutil::str_bytes("usa"), crate::textutil::str_bytes("us")));
    r.push((
        crate::textutil::str_bytes("united states of america"),
        crate::textutil::str_bytes("us"),
    ));
    r.push((crate::textutil::str_bytes("united kingdom"), crate::textutil::str_bytes("gb")));
    r.push((crate::textutil::str_bytes("uk"), crate::textutil::str_bytes("gb")));
    r.push((crate::textutil::str_bytes("great britain"), crate::textutil::str_bytes("gb")));
    r.push((crate::textutil::str_bytes("britain"), crate::textutil::str_bytes("gb")));
    r.push((crate::textutil::str_bytes("germany"), crate::textutil::str_bytes("de")));
    r.push((crate::textutil::str_bytes("deutschland"), crate::textutil::str_bytes("de")));
    r.push((crate::textutil::str_bytes("netherlands"), crate::textutil::str_bytes("nl")));
    r.push((crate::textutil::str_bytes("holland"), crate::textutil::str_bytes("nl")));
    r.push((crate::textutil::str_bytes("switzerland"), crate::textutil::str_bytes("ch")));
    r.push((crate::textutil::str_bytes("schweiz"), crate::textutil::str_bytes("ch")));
    r.push((crate::textutil::str_bytes("brazil"), crate::textutil::str_bytes("br")));
    r.push((crate::textutil::str_bytes("brasil"), crate::textutil::str_bytes("br")));
    r.push((crate::textutil::str_bytes("south korea"), crate::textutil::str_bytes("kr")));
    r.push((crate::textutil::str_bytes("korea"), crate::textutil::str_bytes("kr")));
    r.push((crate::textutil::str_bytes("czech republic"), crate::textutil::str_bytes("cz")));
    r.push((crate::textutil::str_bytes("czechia"), crate::textutil::str_bytes("cz")));
    r.push((crate::textutil::str_bytes("congo"), crate::textutil::str_bytes("cg")));
    r.push((
        crate::textutil::str_bytes("democratic republic of the congo"),
        crate::textutil::str_bytes("cd"),
    ));
    r.push((crate::textutil::str_bytes("drc"), crate::textutil::str_bytes("cd")));
    r.push((crate::textutil::str_bytes("cape verde"), crate::textutil::str_bytes("cv")));
    r.push((crate::textutil::str_bytes("cabo verde"), crate::textutil::str_bytes("cv")));
    r.push((crate::textutil::str_bytes("ivory coast"), crate::textutil::str_bytes("ci")));
    r.push((crate::textutil::str_bytes("cote d'ivoire"), crate::textutil::str_bytes("ci")));
    r.push((crate::textutil::str_bytes("myanmar"), crate::textutil::str_bytes("mm")));
    r.push((crate::textutil::str_bytes("burma"), crate::textutil::str_bytes("mm")));
    r.push((
        crate::textutil::str_bytes("united arab emirates"),
        crate::textutil::str_bytes("ae"),
    ));
    r.push((crate::textutil::str_bytes("uae"), crate::textutil::str_bytes("ae")));
    r.push((crate::textutil::str_bytes("french guiana"), crate::textutil::str_bytes("gf")));
    r.push((crate::textutil::str_bytes("north macedonia"), crate::textutil::str_bytes("mk")));
    r.push((crate::textutil::str_bytes("kosovo"), crate::textutil::str_bytes("xk")));
    proof {
        assert(pairs_model(r@) =~~= alias_model());
    }
    r
}

impl CountryCache {
    /// Exact-table model.
    pub open spec fn exact_model(&self) -> Seq<(Seq<u8>, Seq<u8>)> {
        pairs_model(self.exact@)
    }

    /// Name-list model.
    pub open spec fn names_model(&self) -> Seq<(Seq<u8>, Seq<u8>)> {
        pairs_model(self.names@)
    }
}

/// A lowercase two-letter code.
pub open spec fn lower2(c: Seq<u8>) -> bool {
    c.len() == 2 && (forall|k: int| 0 <= k < 2 ==> 97 <= #[trigger] c[k] <= 122)
}

/// The name list a raw `(name, alpha2)` list gives: each pair lowercased.
pub open spec fn cache_names_spec(raw: Seq<(Vec<u8>, Vec<u8>)>) -> Seq<(Seq<u8>, Seq<u8>)> {
    Seq::new(raw.len(), |i: int| (lower_bytes(raw[i].0@), lower_bytes(raw[i].1@)))
}

/// The exact table the same list gives, before the aliases: for entry `i`,
/// position `2i` maps the lowercased name to the lowercased code and
/// position `2i + 1` maps the code to itself.
pub open spec fn cache_exact_spec(raw: Seq<(Vec<u8>, Vec<u8>)>) -> Seq<(Seq<u8>, Seq<u8>)> {
    Seq::new(
        2 * raw.len(),
        |i: int|
            if i % 2 == 0 {
                (lower_bytes(raw[i / 2].0@), lower_bytes(raw[i / 2].1@))
            } else {
                (lower_bytes(raw[i / 2].1@), lower_bytes(raw[i / 2].1@))
            },
    )
}

/// Build the cache from a raw `(name, alpha2)` list: the name list keeps
/// the list's order with both halves lowercased; the exact table holds,
/// per entry, the name-to-code and code-to-code pairs, with the alias
/// table appended.
#[verifier::rlimit(100)]
pub fn build_cache_from_list(raw: &Vec<(Vec<u8>, Vec<u8>)>) -> (c: CountryCache)
    ensures
        c.names_model() == cache_names_spec(raw@),
        c.exact_model() == cache_exact_spec(raw@) + alias_model(),
{
    let mut names: Vec<(Vec<u8>, Vec<u8>)> = Vec::new();
    let mut exact: Vec<(Vec<u8>, Vec<u8>)> = Vec::new();
    let n = raw.len();
    let mut i: usize = 0;
    proof {
        assert(pairs_model(names@) =~~= cache_names_spec(raw@).take(0));
        assert(pairs_model(exact@) =~~= cache_exact_spec(raw@).take(0));
    }
    while i < n
        invariant
            n == raw@.len(),
            0 <= i <= n,
            pairs_model(names@) == cache_names_spec(raw@).take(i as int),
            pairs_model(exact@) == cache_exact_spec(raw@).take(2 * i),
        decreases n - i,
    {
        let ghost names0 = names@;
        let ghost exact0 = exact@;
        let entry = &raw[i];
        let lname = to_lower(entry.0.as_slice());
        let lcode = to_lower(entry.1.as_slice());
        names.push((dup(&lname), dup(&lcode)));
        exact.push((lname, dup(&lcode)));
        exact.push((dup(&lcode), lcode));
        proof {
            assert((2 * i as int) % 2 == 0 && (2 * i as int) / 2 == i as int);
            assert((2 * i as int + 1) % 2 == 1 && (2 * i as int + 1) / 2 == i as int);
            assert(pairs_model(names0).len() == names0.len());
            assert(cache_names_spec(raw@).take(i as int).len() == i);
            assert(pairs_model(exact0).len() == exact0.len());
            assert(cache_exact_spec(raw@).take(2 * i).len() == 2 * i);
            assert(names@.len() == i + 1);
            assert(exact@.len() == 2 * i + 2);
            assert(forall|j: int| 0 <= j < i ==> names@[j] == names0[j]);
            assert(forall|j: int| 0 <= j < 2 * i ==> exact@[j] == exact0[j]);
            assert(names@[i as int].0@ == lower_bytes(raw@[i as int].0@));
            assert(names@[i as int].1@ == lower_bytes(raw@[i as int].1@));
            assert(pairs_model(names@)[i as int] == cache_names_spec(raw@)[i as int]);
            assert(forall|j: int|
                0 <= j < i ==> pairs_model(names@)[j] == pairs_model(names0)[j]);
            assert(pairs_model(names@) =~~= cache_names_spec(raw@).take(i + 1));
            assert(exact@[2 * i as int].0@ == lower_bytes(raw@[i as int].0@));
            assert(exact@[2 * i as int].1@ == lower_bytes(raw@[i as int].1@));
            assert(exact@[2 * i as int + 1].0@ == lower_bytes(raw@[i as int].1@));
            assert(exact@[2 * i as int + 1].1@ == lower_bytes(raw@[i as int].1@));
            assert(pairs_model(exact@)[2 * i as int] == cache_exact_spec(raw@)[2 * i as int]);
            assert(pairs_model(exact@)[2 * i as int + 1] == cache_exact_spec(raw@)[2 * i as int
                + 1]);
            assert(forall|j: int|
                0 <= j < 2 * i ==> pairs_model(exact@)[j] == pairs_model(exact0)[j]);
            assert(pairs_model(exact@) =~~= cache_exact_spec(raw@).take(2 * (i + 1)));
        }
        i += 1;
    }
    proof {
        assert(cache_names_spec(raw@).take(n as int) =~~= cache_names_spec(raw@));
        assert(cache_exact_spec(raw@).take(2 * n as int) =~~= cache_exact_spec(raw@));
    }
    let aliases = build_alias_table();
    append_pairs(&mut exact, &aliases);
    CountryCache { exact, names }
}

/// The exact table is wired to the name list: its first half interleaves
/// the name-to-code and code-to-code pairs of the name list, and the
/// alias table follows.
pub open spec fn cache_wired(c: &CountryCache) -> bool {
    &&& c.exact_model().len() == 2 * c.names_model().len() + alias_model().len()
    &&& forall|i: int|
        0 <= i < c.names_model().len() ==> (#[trigger] c.exact_model()[2 * i]) == (
        c.names_model()[i].0,
        c.names_model()[i].1,
        ) && c.exact_model()[2 * i + 1] == (c.names_model()[i].1, c.names_model()[i].1)
    &&& c.exact_model().subrange(
        2 * c.names_model().len() as int,
        c.exact_model().len() as int,
    ) == alias_model()
}

/// Every code the cache can hand out is a lowercase two-letter code.
pub open spec fn cache_shaped(c: &CountryCache) -> bool {
    &&& forall|i: int|
        0 <= i < c.names_model().len() ==> lower2((#[trigger] c.names_model()[i]).1)
    &&& forall|i: int|
        0 <= i < c.exact_model().len() ==> lower2((#[trigger] c.exact_model()[i]).1)
}

/// Build the country cache from the ISO list and the alias table.  The
/// name list has the canonical 248 entries; the exact table is wired to
/// it as `cache_wired` says; and every value it can hand out is a
/// lowercase two-letter code.
#[verifier::rlimit(100)]
pub fn build_country_cache() -> (c: CountryCache)
    ensures
        c.names_model().len() == 248,
        cache_wired(&c),
        cache_shaped(&c),
{
    let raw = iso_country_list();
    let c = build_cache_from_list(&raw);
    proof {
        let ns = cache_names_spec(raw@);
        let es = cache_exact_spec(raw@);
        assert forall|i: int| 0 <= i < ns.len() implies (#[trigger] c.exact_model()[2 * i])
            == (ns[i].0, ns[i].1) && c.exact_model()[2 * i + 1] == (ns[i].1, ns[i].1) by {
            assert((2 * i) % 2 == 0 && (2 * i) / 2 == i);
            assert((2 * i + 1) % 2 == 1 && (2 * i + 1) / 2 == i);
            assert(c.exact_model()[2 * i] == es[2 * i]);
            assert(c.exact_model()[2 * i + 1] == es[2 * i + 1]);
        }
        assert(c.exact_model().subrange(
            2 * c.names_model().len() as int,
            c.exact_model().len() as int,
        ) =~= alias_model());
        lemma_alias_value_shapes();
        assert forall|i: int| 0 <= i < c.names_model().len() implies lower2(
            (#[trigger] c.names_model()[i]).1,
        ) by {
            assert(ns[i].1 == lower_bytes(raw@[i].1@));
            assert(raw@[i].1@.len() == 2);
            assert(forall|k: int|
                0 <= k < 2 ==> lower_bytes(raw@[i].1@)[k] == lower_byte(#[trigger] raw@[i].1@[k]));
        }
        assert forall|i: int| 0 <= i < c.exact_model().len() implies lower2(
            (#[trigger] c.exact_model()[i]).1,
        ) by {
            if i < 2 * ns.len() {
                assert(c.exact_model()[i] == es[i]);
                let j = i / 2;
                assert(0 <= j < ns.len());
                assert(es[i].1 == lower_bytes(raw@[j].1@));
                assert(forall|k: int|
                    0 <= k < 2 ==> lower_bytes(raw@[j].1@)[k] == lower_byte(
                        #[trigger] raw@[j].1@[k],
                    ));
            } else {
                assert(c.exact_model()[i] == alias_model()[i - 2 * ns.len()]);
            }
        }
    }
    c
}

/// Append every pair of `src` to `dst`./// Append every pair of `src` to `dst`.
fn append_pairs(dst: &mut Vec<(Vec<u8>, Vec<u8>)>, src: &Vec<(Vec<u8>, Vec<u8>)>)
    ensures
        pairs_model(final(dst)@) == pairs_model(old(dst)@) + pairs_model(src@),
{
    let m = src.len();
    let mut k: usize = 0;
    while k < m
        invariant
            m == src@.len(),
            0 <= k <= m,
            pairs_model(dst@) =~= pairs_model(old(dst)@) + pairs_model(src@).subrange(
                0,
                k as int,
            ),
        decreases m - k,
    {
        let ghost before = dst@;
        let pair = &src[k];
        let key = dup(&pair.0);
        let val = dup(&pair.1);
        dst.push((key, val));
        proof {
            assert(pairs_model(dst@) =~= pairs_model(before).push(pairs_model(src@)[k as int]));
            assert(pairs_model(src@).subrange(0, k + 1) =~= pairs_model(src@).subrange(
                0,
                k as int,
            ).push(pairs_model(src@)[k as int]));
        }
        k += 1;
    }
    proof {
        assert(pairs_model(src@).subrange(0, m as int) =~= pairs_model(src@));
        assert(pairs_model(dst@) =~= pairs_model(old(dst)@) + pairs_model(src@));
    }
}

/// Exact lookup in a `(key, value)` table, first match wins.
fn lookup_exact(tab: &Vec<(Vec<u8>, Vec<u8>)>, key: &[u8]) -> (r: Option<Vec<u8>>)
    ensures
        match r {
            Some(v) => lookup_spec(pairs_model(tab@), key@) == Some(v@),
            None => lookup_spec(pairs_model(tab@), key@) is None,
        },
{
    let n = tab.len();
    let mut i: usize = 0;
    proof {
        assert(pairs_model(tab@).skip(0) =~= pairs_model(tab@));
    }
    while i < n
        invariant
            n == tab@.len(),
            0 <= i <= n,
            lookup_spec(pairs_model(tab@), key@) == lookup_spec(
                pairs_model(tab@).skip(i as int),
                key@,
            ),
        decreases n - i,
    {
        let entry = &tab[i];
        proof {
            assert(pairs_model(tab@).skip(i as int)[0] == pairs_model(tab@)[i as int]);
            assert(pairs_model(tab@).skip(i as int).drop_first() =~= pairs_model(tab@).skip(
                i + 1,
            ));
        }
        if eq_bytes(entry.0.as_slice(), key) {
            return Some(dup(&entry.1));
        }
        i += 1;
    }
    proof {
        assert(pairs_model(tab@).skip(n as int) =~= Seq::<(Seq<u8>, Seq<u8>)>::empty());
    }
    None
}

/// Whether one cleaned token matches one ISO entry: by the alias table or
/// by substring containment in either direction.
pub fn matches_country_name(search_name: &[u8], country_name: &[u8], alpha2: &[u8]) -> (r: bool)
    ensures
        r == match_entry_spec(search_name@, country_name@, alpha2@),
{
    let aliases = build_alias_table();
    let hit = lookup_exact(&aliases, search_name);
    match hit {
        Some(code) => {
            if eq_bytes(code.as_slice(), alpha2) {
                return true;
            }
        },
        None => {},
    }
    contains_bytes(country_name, search_name) || contains_bytes(search_name, country_name)
}

/// Strip an optional `language:` prefix and, when one was present, replace
/// hyphens by spaces in the remainder.
fn strip_lang_exec(t: &[u8]) -> (r: Vec<u8>)
    ensures
        r@ == strip_lang(t@),
{
    proof {
        lemma_first_colon(t@);
    }
    let n = t.len();
    let mut i: usize = 0;
    while i < n && t[i] != 58
        invariant
            n == t@.len(),
            0 <= i <= n,
            forall|j: int| 0 <= j < i ==> t@[j] != 58,
        decreases n - i,
    {
        i += 1;
    }
    proof {
        if i < n {
            assert(first_colon(t@) == i) by {
                if first_colon(t@) < i {
                    assert(t@[first_colon(t@)] == 58);
                }
                if first_colon(t@) > i {
                    assert(t@[i as int] != 58);
                }
            }
        } else {
            assert(first_colon(t@) == n) by {
                if first_colon(t@) < n {
                    assert(t@[first_colon(t@)] == 58);
                }
            }
        }
    }
    if i == n {
        let r = vstd::slice::slice_to_vec(t);
        return r;
    }
    let mut r: Vec<u8> = Vec::new();
    let mut j: usize = i + 1;
    while j < n
        invariant
            0 <= i < j <= n,
            n == t@.len(),
            r@.len() == j - i - 1,
            forall|k: int|
                0 <= k < j - i - 1 ==> r@[k] == (if t@[i + 1 + k] == 45 {
                    32u8
                } else {
                    t@[i + 1 + k]
                }),
        decreases n - j,
    {
        let b = t[j];
        if b == 45 {
            r.push(32);
        } else {
            r.push(b);
        }
        j += 1;
    }
    proof {
        assert(r@ =~= map_hyphens(t@.subrange(i + 1, n as int)));
    }
    r
}

/// Scan the canonical name list for the first match of the token.
#[verifier::rlimit(60)]
fn scan_names(names: &Vec<(Vec<u8>, Vec<u8>)>, t: &[u8]) -> (r: Option<Vec<u8>>)
    ensures
        match r {
            Some(v) => scan_names_spec(pairs_model(names@), t@) == Some(v@),
            None => scan_names_spec(pairs_model(names@), t@) is None,
        },
{
    let n = names.len();
    let mut i: usize = 0;
    proof {
        assert(pairs_model(names@).skip(0) =~= pairs_model(names@));
    }
    while i < n
        invariant
            n == names@.len(),
            0 <= i <= n,
            scan_names_spec(pairs_model(names@), t@) == scan_names_spec(
                pairs_model(names@).skip(i as int),
                t@,
            ),
        decreases n - i,
    {
        let entry = &names[i];
        proof {
            assert(pairs_model(names@).skip(i as int)[0] == pairs_model(names@)[i as int]);
            assert(pairs_model(names@).skip(i as int).drop_first() =~= pairs_model(names@).skip(
                i + 1,
            ));
        }
        if matches_country_name(t, entry.0.as_slice(), entry.1.as_slice()) {
            return Some(dup(&entry.1));
        }
        i += 1;
    }
    proof {
        assert(pairs_model(names@).skip(n as int) =~= Seq::<(Seq<u8>, Seq<u8>)>::empty());
    }
    None
}

/// Map one cleaned, lowercased country token to its code: `global` for a
/// token naming the world, else the exact cache, else the first substring
/// match over the ISO names, else `unknown`.
pub fn map_country_to_iso_code(cache: &CountryCache, token: &[u8]) -> (r: Vec<u8>)
    ensures
        r@ == resolve_token_spec(cache.exact_model(), cache.names_model(), token@),
        cache_shaped(cache) ==> code_shape(r@),
{
    proof {
        if cache_shaped(cache) {
            lemma_resolve_shape(cache.exact_model(), cache.names_model(), token@);
        }
    }
    let world = crate::textutil::str_bytes("world");
    if contains_bytes(token, world.as_slice()) {
        return crate::textutil::str_bytes("global");
    }
    let t = strip_lang_exec(token);
    let hit = lookup_exact(&cache.exact, t.as_slice());
    match hit {
        Some(code) => code,
        None => {
            let scan = scan_names(&cache.names, t.as_slice());
            match scan {
                Some(code) => code,
                None => crate::textutil::str_bytes("unknown"),
            }
        },
    }
}

/// Membership of a code in the accumulated list.
fn codes_contain(codes: &Vec<Vec<u8>>, code: &[u8]) -> (r: bool)
    ensures
        r == codes_model(codes@).contains(code@),
{
    let n = codes.len();
    let mut i: usize = 0;
    while i < n
        invariant
            n == codes@.len(),
            0 <= i <= n,
            forall|j: int| 0 <= j < i ==> codes_model(codes@)[j] != code@,
        decreases n - i,
    {
        if eq_bytes(codes[i].as_slice(), code) {
            proof {
                assert(codes_model(codes@)[i as int] == code@);
            }
            return true;
        }
        i += 1;
    }
    proof {
        if codes_model(codes@).contains(code@) {
            let j = choose|j: int| 0 <= j < n && codes_model(codes@)[j] == code@;
            assert(false);
        }
    }
    false
}

/// Fold one raw token into the accumulated code list, as `accum_token`
/// says: clean it, resolve it, and append the code unless it is already
/// present or the cleaned token is empty.
fn push_token_code(cache: &CountryCache, codes: &mut Vec<Vec<u8>>, raw: &[u8])
    ensures
        codes_model(final(codes)@) == accum_token(
            cache.exact_model(),
            cache.names_model(),
            codes_model(old(codes)@),
            raw@,
        ),
{
    let tok = trim(raw);
    let ct = to_lower(tok.as_slice());
    if ct.len() > 0 {
        let code = map_country_to_iso_code(cache, ct.as_slice());
        if !codes_contain(codes, code.as_slice()) {
            codes.push(code);
            proof {
                assert(codes_model(codes@) =~= codes_model(old(codes)@).push(
                    resolve_token_spec(
                        cache.exact_model(),
                        cache.names_model(),
                        clean_token(raw@),
                    ),
                ));
            }
        }
    }
}

/// Split on separators, keeping empty fragments.
fn split_tokens(s: &[u8]) -> (toks: Vec<Vec<u8>>)
    ensures
        codes_model(toks@) == split_raw(s@),
{
    let mut toks: Vec<Vec<u8>> = Vec::new();
    let mut cur: Vec<u8> = Vec::new();
    let n = s.len();
    let mut i: usize = 0;
    while i < n
        invariant
            n == s@.len(),
            0 <= i <= n,
            split_raw(s@.subrange(0, i as int)) == codes_model(toks@).push(cur@),
        decreases n - i,
    {
        let b = s[i];
        proof {
            let pre = s@.subrange(0, i as int);
            assert(s@.subrange(0, i + 1) =~= pre.push(s@[i as int]));
            lemma_split_raw_len(pre);
            lemma_split_raw_step(pre, s@[i as int]);
        }
        if b == 44 || b == 59 || b == 124 {
            toks.push(cur);
            cur = Vec::new();
            proof {
                assert(split_raw(s@.subrange(0, i + 1)) =~= codes_model(toks@).push(cur@));
            }
        } else {
            cur.push(b);
            proof {
                assert(split_raw(s@.subrange(0, i + 1)) =~= codes_model(toks@).push(cur@));
            }
        }
        i += 1;
    }
    proof {
        assert(s@.subrange(0, n as int) =~= s@);
    }
    toks.push(cur);
    proof {
        assert(codes_model(toks@) =~= split_raw(s@));
    }
    toks
}

/// Normalize a free-text country string to an ordered, duplicate-free list
/// of lowercase codes; `unknown` when nothing resolves.  Tokens are split
/// on commas, semicolons and pipes, trimmed and lowercased.
pub fn normalize_country_codes(cache: &CountryCache, countries: &[u8]) -> (r: Vec<Vec<u8>>)
    ensures
        codes_model(r@) == normalize_spec(cache.exact_model(), cache.names_model(), countries@),
        r@.len() >= 1,
        distinct_codes(codes_model(r@)),
        cache_shaped(cache) ==> forall|i: int|
            0 <= i < r@.len() ==> code_shape(#[trigger] codes_model(r@)[i]),
{
    proof {
        reveal(normalize_spec);
        lemma_normalize_distinct(cache.exact_model(), cache.names_model(), countries@);
        if cache_shaped(cache) {
            lemma_normalize_shape(cache.exact_model(), cache.names_model(), countries@);
        }
    }
    let ghost exact = cache.exact_model();
    let ghost names = cache.names_model();
    let toks = split_tokens(countries);
    let ghost toksm = codes_model(toks@);
    let mut codes: Vec<Vec<u8>> = Vec::new();
    let m = toks.len();
    let mut j: usize = 0;
    while j < m
        invariant
            m == toks@.len(),
            0 <= j <= m,
            toksm == codes_model(toks@),
            toksm == split_raw(countries@),
            codes_model(codes@) == accum_tokens(exact, names, Seq::empty(), toksm.take(j as int)),
            exact == cache.exact_model(),
            names == cache.names_model(),
        decreases m - j,
    {
        push_token_code(cache, &mut codes, toks[j].as_slice());
        proof {
            assert(toksm.take(j + 1).drop_last() =~= toksm.take(j as int));
            assert(toksm.take(j + 1).last() == toks@[j as int]@);
        }
        j += 1;
    }
    proof {
        assert(toksm.take(m as int) =~= toksm);
    }
    if codes.len() == 0 {
        codes.push(crate::textutil::str_bytes("unknown"));
        proof {
            assert(codes_model(codes@) =~= seq!["unknown".spec_bytes()]);
        }
    }
    codes
}

} // verus!
