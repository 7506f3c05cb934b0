//! Record validation and transformation: one raw row becomes either a
//! rejected row or a validated entity with its JSON document and its
//! catalog projections, one per resolved country.
//!
//! A row is accepted exactly when its identifier (the digits of the first
//! cell) is non-empty and either the serving-basis macros are complete
//! (seven fields) or the per-100g basis is sufficient (energy plus at
//! least one macro-nutrient).  Serving-basis values take priority when
//! complete.

use vstd::prelude::*;
use vstd::string::StringSliceAdditionalSpecFns;
use crate::country::{codes_model, normalize_country_codes, normalize_spec, CountryCache};
use crate::json::{json_opt_number, json_opt_string, json_string};
use crate::num::{dec_ok, lemma_parse_scale, parse_number, parse_number_spec, Decimal};
use crate::schema::{get_raw_field, get_text_field, raw_field_spec, text_field_spec, views_of,
    ColumnMap};
use crate::serving::{parse_serving, serving_spec, ServingInfo};
use crate::textutil::{is_digit, str_bytes};

verus! {

/// The digits of a byte string, in order, everything else removed.
pub open spec fn digits_only(s: Seq<u8>) -> Seq<u8>
    decreases s.len(),
{
    if s.len() == 0 {
        Seq::empty()
    } else {
        let p = digits_only(s.drop_last());
        if is_digit(s.last()) {
            p.push(s.last())
        } else {
            p
        }
    }
}

/// The entity identifier of a row: the digits of the first cell; empty
/// when the row has no cells.
pub open spec fn identifier_spec(rec: Seq<Seq<u8>>) -> Seq<u8> {
    if rec.len() == 0 {
        Seq::empty()
    } else {
        digits_only(rec[0])
    }
}

/// Strip every non-digit byte from a cell.
pub fn extract_identifier(cell: &[u8]) -> (r: Vec<u8>)
    ensures
        r@ == digits_only(cell@),
{
    let n = cell.len();
    let mut r: Vec<u8> = Vec::new();
    let mut i: usize = 0;
    while i < n
        invariant
            n == cell@.len(),
            0 <= i <= n,
            r@ == digits_only(cell@.subrange(0, i as int)),
        decreases n - i,
    {
        let b = cell[i];
        proof {
            assert(cell@.subrange(0, i + 1).drop_last() =~= cell@.subrange(0, i as int));
            assert(cell@.subrange(0, i + 1).last() == cell@[i as int]);
        }
        if 48 <= b && b <= 57 {
            r.push(b);
        }
        i += 1;
    }
    proof {
        assert(cell@.subrange(0, n as int) =~= cell@);
    }
    r
}

/// One nutrient basis: every value optional, absent values stay absent.
#[derive(Clone, Copy, Debug)]
pub struct NutrientSet {
    pub energy_kcal: Option<Decimal>,
    pub energy_kj: Option<Decimal>,
    pub carbohydrates: Option<Decimal>,
    pub fat: Option<Decimal>,
    pub proteins: Option<Decimal>,
    pub sugars: Option<Decimal>,
    pub fiber: Option<Decimal>,
    pub salt: Option<Decimal>,
}

/// Serving values and both nutrient bases of an entity.
#[derive(Debug)]
pub struct Macros {
    pub serving_size: Option<Decimal>,
    pub serving_quantity: Option<Decimal>,
    pub serving_unit: Option<Vec<u8>>,
    pub serving: NutrientSet,
    pub per100g: NutrientSet,
}

/// A validated entity: identifier, display fields and its breakdown.
#[derive(Debug)]
pub struct Product {
    pub code: Vec<u8>,
    pub product_name: Option<Vec<u8>>,
    pub brands: Option<Vec<u8>>,
    pub main_category: Option<Vec<u8>>,
    pub macros: Macros,
}

/// View of an optional byte string.
pub open spec fn opt_view(o: Option<Vec<u8>>) -> Option<Seq<u8>> {
    match o {
        None => None,
        Some(v) => Some(v@),
    }
}

/// A parsed numeric field: the raw cell run through `parse_number`.
pub open spec fn num_field_spec(rec: Seq<Seq<u8>>, col: Option<usize>) -> Option<Decimal> {
    match raw_field_spec(rec, col) {
        None => None,
        Some(c) => parse_number_spec(c),
    }
}

/// The per-100g nutrient basis of a row.
pub open spec fn per100g_spec(rec: Seq<Seq<u8>>, cm: ColumnMap) -> NutrientSet {
    NutrientSet {
        energy_kcal: num_field_spec(rec, cm.energy_kcal_100g),
        energy_kj: num_field_spec(rec, cm.energy_kj_100g),
        carbohydrates: num_field_spec(rec, cm.carbohydrates_100g),
        fat: num_field_spec(rec, cm.fat_100g),
        proteins: num_field_spec(rec, cm.proteins_100g),
        sugars: num_field_spec(rec, cm.sugars_100g),
        fiber: num_field_spec(rec, cm.fiber_100g),
        salt: num_field_spec(rec, cm.salt_100g),
    }
}

/// The serving-basis nutrient set of a row.
pub open spec fn serving_nut_spec(rec: Seq<Seq<u8>>, cm: ColumnMap) -> NutrientSet {
    NutrientSet {
        energy_kcal: num_field_spec(rec, cm.energy_kcal_serving),
        energy_kj: num_field_spec(rec, cm.energy_kj_serving),
        carbohydrates: num_field_spec(rec, cm.carbohydrates_serving),
        fat: num_field_spec(rec, cm.fat_serving),
        proteins: num_field_spec(rec, cm.proteins_serving),
        sugars: num_field_spec(rec, cm.sugars_serving),
        fiber: num_field_spec(rec, cm.fiber_serving),
        salt: num_field_spec(rec, cm.salt_serving),
    }
}

/// The serving triple of a row: size, quantity, unit.
pub open spec fn serving_info_spec(rec: Seq<Seq<u8>>, cm: ColumnMap) -> (
    Option<Decimal>,
    Option<Decimal>,
    Option<Seq<u8>>,
) {
    serving_spec(raw_field_spec(rec, cm.serving_size), raw_field_spec(rec, cm.serving_quantity))
}

/// The exact decimal one hundred.
pub open spec fn dec_100() -> Decimal {
    Decimal { neg: false, mantissa: 100, scale: 0 }
}

/// The macros a catalog record carries, on one basis.
pub struct MacroSel {
    pub kcal: Option<Decimal>,
    pub serving_size: Option<Decimal>,
    pub serving_unit: Option<Seq<u8>>,
    pub fiber: Option<Decimal>,
    pub carbs: Option<Decimal>,
    pub fat: Option<Decimal>,
    pub protein: Option<Decimal>,
}

/// The serving-basis candidate.
pub open spec fn serving_sel_spec(rec: Seq<Seq<u8>>, cm: ColumnMap) -> MacroSel {
    let sn = serving_nut_spec(rec, cm);
    let sv = serving_info_spec(rec, cm);
    MacroSel {
        kcal: sn.energy_kcal,
        serving_size: sv.0,
        serving_unit: sv.2,
        fiber: sn.fiber,
        carbs: sn.carbohydrates,
        fat: sn.fat,
        protein: sn.proteins,
    }
}

/// The per-100g candidate: one hundred grams, by definition.
pub open spec fn per100g_sel_spec(rec: Seq<Seq<u8>>, cm: ColumnMap) -> MacroSel {
    let p = per100g_spec(rec, cm);
    MacroSel {
        kcal: p.energy_kcal,
        serving_size: Some(dec_100()),
        serving_unit: Some("g".spec_bytes()),
        fiber: p.fiber,
        carbs: p.carbohydrates,
        fat: p.fat,
        protein: p.proteins,
    }
}

/// The serving basis counts only when all seven fields are present.
pub open spec fn sel_complete(m: MacroSel) -> bool {
    &&& m.kcal is Some
    &&& m.serving_size is Some
    &&& m.serving_unit is Some
    &&& m.fiber is Some
    &&& m.carbs is Some
    &&& m.fat is Some
    &&& m.protein is Some
}

/// The per-100g basis suffices with energy plus one macro-nutrient.
pub open spec fn per100g_sufficient(m: MacroSel) -> bool {
    m.kcal is Some && (m.carbs is Some || m.fat is Some || m.protein is Some)
}

/// The macros chosen for the catalog: serving basis when complete, else
/// per-100g.
pub open spec fn chosen_sel_spec(rec: Seq<Seq<u8>>, cm: ColumnMap) -> MacroSel {
    if sel_complete(serving_sel_spec(rec, cm)) {
        serving_sel_spec(rec, cm)
    } else {
        per100g_sel_spec(rec, cm)
    }
}

/// The inclusion rule: a non-empty identifier, and either basis usable.
pub open spec fn accepted_spec(rec: Seq<Seq<u8>>, cm: ColumnMap) -> bool {
    &&& identifier_spec(rec).len() > 0
    &&& (sel_complete(serving_sel_spec(rec, cm)) || per100g_sufficient(per100g_sel_spec(rec, cm)))
}

/// JSON of one nutrient basis, field order fixed.
#[verifier::opaque]
pub open spec fn nutrients_json_spec(n: NutrientSet) -> Seq<u8> {
    crate::json::concat_all(
        seq![
            "{\"energy_kcal\":".spec_bytes(),
            json_opt_number(n.energy_kcal),
            ",\"energy_kj\":".spec_bytes(),
            json_opt_number(n.energy_kj),
            ",\"carbohydrates\":".spec_bytes(),
            json_opt_number(n.carbohydrates),
            ",\"fat\":".spec_bytes(),
            json_opt_number(n.fat),
            ",\"proteins\":".spec_bytes(),
            json_opt_number(n.proteins),
            ",\"sugars\":".spec_bytes(),
            json_opt_number(n.sugars),
            ",\"fiber\":".spec_bytes(),
            json_opt_number(n.fiber),
            ",\"salt\":".spec_bytes(),
            json_opt_number(n.salt),
            "}".spec_bytes(),
        ],
    )
}

/// JSON of the macros block.
#[verifier::opaque]
pub open spec fn macros_json_spec(m: Macros) -> Seq<u8> {
    crate::json::concat_all(
        seq![
            "{\"serving_size\":".spec_bytes(),
            json_opt_number(m.serving_size),
            ",\"serving_quantity\":".spec_bytes(),
            json_opt_number(m.serving_quantity),
            ",\"serving_unit\":".spec_bytes(),
            json_opt_string(opt_view(m.serving_unit)),
            ",\"serving\":".spec_bytes(),
            nutrients_json_spec(m.serving),
            ",\"per100g\":".spec_bytes(),
            nutrients_json_spec(m.per100g),
            "}".spec_bytes(),
        ],
    )
}

/// The entity document: one JSON object per accepted entity.
#[verifier::opaque]
pub open spec fn product_json_spec(p: Product) -> Seq<u8> {
    crate::json::concat_all(
        seq![
            "{\"code\":".spec_bytes(),
            json_string(p.code@),
            ",\"product_name\":".spec_bytes(),
            json_opt_string(opt_view(p.product_name)),
            ",\"brands\":".spec_bytes(),
            json_opt_string(opt_view(p.brands)),
            ",\"main_category\":".spec_bytes(),
            json_opt_string(opt_view(p.main_category)),
            ",\"macros\":".spec_bytes(),
            macros_json_spec(p.macros),
            "}".spec_bytes(),
        ],
    )
}

/// Every decimal of a nutrient set can be rendered.
pub open spec fn ns_ok(n: NutrientSet) -> bool {
    &&& dec_ok(n.energy_kcal)
    &&& dec_ok(n.energy_kj)
    &&& dec_ok(n.carbohydrates)
    &&& dec_ok(n.fat)
    &&& dec_ok(n.proteins)
    &&& dec_ok(n.sugars)
    &&& dec_ok(n.fiber)
    &&& dec_ok(n.salt)
}

/// Every decimal of a product can be rendered.
pub open spec fn product_ok(p: Product) -> bool {
    &&& dec_ok(p.macros.serving_size)
    &&& dec_ok(p.macros.serving_quantity)
    &&& ns_ok(p.macros.serving)
    &&& ns_ok(p.macros.per100g)
}

/// Emit one nutrient basis as JSON.
#[verifier::rlimit(100)]
#[verifier::spinoff_prover]
fn nutrients_json(n: &NutrientSet) -> (r: Vec<u8>)
    requires
        ns_ok(*n),
    ensures
        r@ == nutrients_json_spec(*n),
{
    proof {
        reveal(nutrients_json_spec);
    }
    let mut parts: Vec<Vec<u8>> = Vec::new();
    parts.push(str_bytes("{\"energy_kcal\":"));
    parts.push(crate::json::json_opt_number_bytes(&n.energy_kcal));
    parts.push(str_bytes(",\"energy_kj\":"));
    parts.push(crate::json::json_opt_number_bytes(&n.energy_kj));
    parts.push(str_bytes(",\"carbohydrates\":"));
    parts.push(crate::json::json_opt_number_bytes(&n.carbohydrates));
    parts.push(str_bytes(",\"fat\":"));
    parts.push(crate::json::json_opt_number_bytes(&n.fat));
    parts.push(str_bytes(",\"proteins\":"));
    parts.push(crate::json::json_opt_number_bytes(&n.proteins));
    parts.push(str_bytes(",\"sugars\":"));
    parts.push(crate::json::json_opt_number_bytes(&n.sugars));
    parts.push(str_bytes(",\"fiber\":"));
    parts.push(crate::json::json_opt_number_bytes(&n.fiber));
    parts.push(str_bytes(",\"salt\":"));
    parts.push(crate::json::json_opt_number_bytes(&n.salt));
    parts.push(str_bytes("}"));
    let r = crate::json::join_parts(&parts);
    proof {
        assert(crate::json::parts_views(parts@) =~= seq![
            "{\"energy_kcal\":".spec_bytes(),
            json_opt_number(n.energy_kcal),
            ",\"energy_kj\":".spec_bytes(),
            json_opt_number(n.energy_kj),
            ",\"carbohydrates\":".spec_bytes(),
            json_opt_number(n.carbohydrates),
            ",\"fat\":".spec_bytes(),
            json_opt_number(n.fat),
            ",\"proteins\":".spec_bytes(),
            json_opt_number(n.proteins),
            ",\"sugars\":".spec_bytes(),
            json_opt_number(n.sugars),
            ",\"fiber\":".spec_bytes(),
            json_opt_number(n.fiber),
            ",\"salt\":".spec_bytes(),
            json_opt_number(n.salt),
            "}".spec_bytes(),
        ]);
    }
    r
}

/// Emit the entity document.
#[verifier::rlimit(100)]
#[verifier::spinoff_prover]
pub fn product_json(p: &Product) -> (r: Vec<u8>)
    requires
        product_ok(*p),
    ensures
        r@ == product_json_spec(*p),
{
    proof {
        reveal(macros_json_spec);
        reveal(product_json_spec);
    }
    let mut mparts: Vec<Vec<u8>> = Vec::new();
    mparts.push(str_bytes("{\"serving_size\":"));
    mparts.push(crate::json::json_opt_number_bytes(&p.macros.serving_size));
    mparts.push(str_bytes(",\"serving_quantity\":"));
    mparts.push(crate::json::json_opt_number_bytes(&p.macros.serving_quantity));
    mparts.push(str_bytes(",\"serving_unit\":"));
    mparts.push(crate::json::json_opt_string_bytes(&p.macros.serving_unit));
    mparts.push(str_bytes(",\"serving\":"));
    mparts.push(nutrients_json(&p.macros.serving));
    mparts.push(str_bytes(",\"per100g\":"));
    mparts.push(nutrients_json(&p.macros.per100g));
    mparts.push(str_bytes("}"));
    let mbytes = crate::json::join_parts(&mparts);
    proof {
        assert(crate::json::parts_views(mparts@) =~= seq![
            "{\"serving_size\":".spec_bytes(),
            json_opt_number(p.macros.serving_size),
            ",\"serving_quantity\":".spec_bytes(),
            json_opt_number(p.macros.serving_quantity),
            ",\"serving_unit\":".spec_bytes(),
            json_opt_string(opt_view(p.macros.serving_unit)),
            ",\"serving\":".spec_bytes(),
            nutrients_json_spec(p.macros.serving),
            ",\"per100g\":".spec_bytes(),
            nutrients_json_spec(p.macros.per100g),
            "}".spec_bytes(),
        ]);
    }
    let mut parts: Vec<Vec<u8>> = Vec::new();
    parts.push(str_bytes("{\"code\":"));
    parts.push(crate::json::json_string_bytes(p.code.as_slice()));
    parts.push(str_bytes(",\"product_name\":"));
    parts.push(crate::json::json_opt_string_bytes(&p.product_name));
    parts.push(str_bytes(",\"brands\":"));
    parts.push(crate::json::json_opt_string_bytes(&p.brands));
    parts.push(str_bytes(",\"main_category\":"));
    parts.push(crate::json::json_opt_string_bytes(&p.main_category));
    parts.push(str_bytes(",\"macros\":"));
    parts.push(mbytes);
    parts.push(str_bytes("}"));
    let r = crate::json::join_parts(&parts);
    proof {
        assert(crate::json::parts_views(parts@) =~= seq![
            "{\"code\":".spec_bytes(),
            json_string(p.code@),
            ",\"product_name\":".spec_bytes(),
            json_opt_string(opt_view(p.product_name)),
            ",\"brands\":".spec_bytes(),
            json_opt_string(opt_view(p.brands)),
            ",\"main_category\":".spec_bytes(),
            json_opt_string(opt_view(p.main_category)),
            ",\"macros\":".spec_bytes(),
            macros_json_spec(p.macros),
            "}".spec_bytes(),
        ]);
    }
    r
}

/// One catalog line: the positionally-encoded ten-element JSON array.
#[verifier::opaque]
pub open spec fn catalog_line_of(
    code: Seq<u8>,
    name: Option<Seq<u8>>,
    brand: Option<Seq<u8>>,
    country: Option<Seq<u8>>,
    serving_size: Option<Decimal>,
    serving_unit: Option<Seq<u8>>,
    fiber: Option<Decimal>,
    carbs: Option<Decimal>,
    fat: Option<Decimal>,
    protein: Option<Decimal>,
) -> Seq<u8> {
    crate::json::concat_all(
        seq![
            "[".spec_bytes(),
            json_string(code),
            ",".spec_bytes(),
            json_opt_string(name),
            ",".spec_bytes(),
            json_opt_string(brand),
            ",".spec_bytes(),
            json_opt_string(country),
            ",".spec_bytes(),
            json_opt_number(serving_size),
            ",".spec_bytes(),
            json_opt_string(serving_unit),
            ",".spec_bytes(),
            json_opt_number(fiber),
            ",".spec_bytes(),
            json_opt_number(carbs),
            ",".spec_bytes(),
            json_opt_number(fat),
            ",".spec_bytes(),
            json_opt_number(protein),
            "]".spec_bytes(),
        ],
    )
}

/// A compact catalog record: one per entity and country.
#[derive(Debug)]
pub struct CatalogEntry {
    pub code: Vec<u8>,
    pub name: Option<Vec<u8>>,
    pub brand: Option<Vec<u8>>,
    pub country: Option<Vec<u8>>,
    pub serving_size: Option<Decimal>,
    pub serving_unit: Option<Vec<u8>>,
    pub fiber: Option<Decimal>,
    pub carbs: Option<Decimal>,
    pub fat: Option<Decimal>,
    pub protein: Option<Decimal>,
}

/// The line an entry serializes to.
pub open spec fn catalog_entry_line(e: CatalogEntry) -> Seq<u8> {
    catalog_line_of(
        e.code@,
        opt_view(e.name),
        opt_view(e.brand),
        opt_view(e.country),
        e.serving_size,
        opt_view(e.serving_unit),
        e.fiber,
        e.carbs,
        e.fat,
        e.protein,
    )
}

/// Serialize one catalog entry positionally.
#[verifier::rlimit(100)]
#[verifier::spinoff_prover]
pub fn catalog_entry_json(e: &CatalogEntry) -> (r: Vec<u8>)
    requires
        dec_ok(e.serving_size),
        dec_ok(e.fiber),
        dec_ok(e.carbs),
        dec_ok(e.fat),
        dec_ok(e.protein),
    ensures
        r@ == catalog_entry_line(*e),
{
    proof {
        reveal(catalog_line_of);
    }
    let comma = str_bytes(",");
    let mut parts: Vec<Vec<u8>> = Vec::new();
    parts.push(str_bytes("["));
    parts.push(crate::json::json_string_bytes(e.code.as_slice()));
    parts.push(vstd::slice::slice_to_vec(comma.as_slice()));
    parts.push(crate::json::json_opt_string_bytes(&e.name));
    parts.push(vstd::slice::slice_to_vec(comma.as_slice()));
    parts.push(crate::json::json_opt_string_bytes(&e.brand));
    parts.push(vstd::slice::slice_to_vec(comma.as_slice()));
    parts.push(crate::json::json_opt_string_bytes(&e.country));
    parts.push(vstd::slice::slice_to_vec(comma.as_slice()));
    parts.push(crate::json::json_opt_number_bytes(&e.serving_size));
    parts.push(vstd::slice::slice_to_vec(comma.as_slice()));
    parts.push(crate::json::json_opt_string_bytes(&e.serving_unit));
    parts.push(vstd::slice::slice_to_vec(comma.as_slice()));
    parts.push(crate::json::json_opt_number_bytes(&e.fiber));
    parts.push(vstd::slice::slice_to_vec(comma.as_slice()));
    parts.push(crate::json::json_opt_number_bytes(&e.carbs));
    parts.push(vstd::slice::slice_to_vec(comma.as_slice()));
    parts.push(crate::json::json_opt_number_bytes(&e.fat));
    parts.push(vstd::slice::slice_to_vec(comma.as_slice()));
    parts.push(crate::json::json_opt_number_bytes(&e.protein));
    parts.push(str_bytes("]"));
    let r = crate::json::join_parts(&parts);
    proof {
        assert(crate::json::parts_views(parts@) =~= seq![
            "[".spec_bytes(),
            json_string(e.code@),
            ",".spec_bytes(),
            json_opt_string(opt_view(e.name)),
            ",".spec_bytes(),
            json_opt_string(opt_view(e.brand)),
            ",".spec_bytes(),
            json_opt_string(opt_view(e.country)),
            ",".spec_bytes(),
            json_opt_number(e.serving_size),
            ",".spec_bytes(),
            json_opt_string(opt_view(e.serving_unit)),
            ",".spec_bytes(),
            json_opt_number(e.fiber),
            ",".spec_bytes(),
            json_opt_number(e.carbs),
            ",".spec_bytes(),
            json_opt_number(e.fat),
            ",".spec_bytes(),
            json_opt_number(e.protein),
            "]".spec_bytes(),
        ]);
    }
    r
}

/// Everything the pipeline derives from one accepted row.
pub struct RecordOutput {
    pub product: Product,
    pub product_json: Vec<u8>,
    pub country_codes: Vec<Vec<u8>>,
    pub catalog_lines: Vec<(Vec<u8>, Vec<u8>)>,
    pub brand: Option<Vec<u8>>,
}

/// The countries text of a row (empty when absent), fed to the resolver.
pub open spec fn countries_text_spec(rec: Seq<Seq<u8>>, cm: ColumnMap) -> Seq<u8> {
    match text_field_spec(rec, cm.countries) {
        Some(c) => c,
        None => Seq::empty(),
    }
}

/// Duplicate an optional byte string.
fn dup_opt(o: &Option<Vec<u8>>) -> (r: Option<Vec<u8>>)
    ensures
        opt_view(r) == match *o {
            Some(ref v) => Some(v@),
            None => None,
        },
{
    match o {
        None => None,
        Some(v) => Some(vstd::slice::slice_to_vec(v.as_slice())),
    }
}

/// Read and parse one numeric field, with a renderable scale.
fn num_field(record: &Vec<Vec<u8>>, col: Option<usize>) -> (r: Option<Decimal>)
    ensures
        r == num_field_spec(views_of(record@), col),
        dec_ok(r),
{
    match get_raw_field(record, col) {
        None => None,
        Some(cell) => {
            let v = parse_number(cell.as_slice());
            proof {
                lemma_parse_scale(cell@);
            }
            v
        },
    }
}

/// Build one catalog line per country code.
fn build_catalog_lines(
    codes: &Vec<Vec<u8>>,
    code: &Vec<u8>,
    name: &Option<Vec<u8>>,
    brand: &Option<Vec<u8>>,
    size: Option<Decimal>,
    unit: &Option<Vec<u8>>,
    fiber: Option<Decimal>,
    carbs: Option<Decimal>,
    fat: Option<Decimal>,
    protein: Option<Decimal>,
) -> (lines: Vec<(Vec<u8>, Vec<u8>)>)
    requires
        dec_ok(size),
        dec_ok(fiber),
        dec_ok(carbs),
        dec_ok(fat),
        dec_ok(protein),
    ensures
        lines@.len() == codes@.len(),
        forall|j: int|
            0 <= j < codes@.len() ==> (#[trigger] lines@[j]).0@ == codes@[j]@ && lines@[j].1@
                == catalog_line_of(
                code@,
                opt_view(*name),
                opt_view(*brand),
                Some(codes@[j]@),
                size,
                opt_view(*unit),
                fiber,
                carbs,
                fat,
                protein,
            ),
{
    let mut lines: Vec<(Vec<u8>, Vec<u8>)> = Vec::new();
    let n = codes.len();
    let mut k: usize = 0;
    while k < n
        invariant
            n == codes@.len(),
            0 <= k <= n,
            lines@.len() == k,
            dec_ok(size),
            dec_ok(fiber),
            dec_ok(carbs),
            dec_ok(fat),
            dec_ok(protein),
            forall|j: int|
                0 <= j < k ==> (#[trigger] lines@[j]).0@ == codes@[j]@ && lines@[j].1@
                    == catalog_line_of(
                    code@,
                    opt_view(*name),
                    opt_view(*brand),
                    Some(codes@[j]@),
                    size,
                    opt_view(*unit),
                    fiber,
                    carbs,
                    fat,
                    protein,
                ),
        decreases n - k,
    {
        let cc = vstd::slice::slice_to_vec(codes[k].as_slice());
        let entry = CatalogEntry {
            code: vstd::slice::slice_to_vec(code.as_slice()),
            name: dup_opt(name),
            brand: dup_opt(brand),
            country: Some(vstd::slice::slice_to_vec(codes[k].as_slice())),
            serving_size: size,
            serving_unit: dup_opt(unit),
            fiber,
            carbs,
            fat,
            protein,
        };
        let line = catalog_entry_json(&entry);
        lines.push((cc, line));
        k += 1;
    }
    lines
}

/// A row without energy on either basis is rejected, whatever other
/// macro-nutrients are present: the serving basis is incomplete without
/// its energy field, and the per-100g basis is insufficient without its.
pub proof fn lemma_missing_energy_rejected(rec: Seq<Seq<u8>>, cm: ColumnMap)
    requires
        per100g_spec(rec, cm).energy_kcal is None,
        serving_nut_spec(rec, cm).energy_kcal is None,
    ensures
        !accepted_spec(rec, cm),
{
}

/// A row with a non-empty identifier, energy per 100g and at least one
/// of carbohydrates, fat or protein per 100g is accepted, whether or not
/// the serving basis is complete.
pub proof fn lemma_per100g_sufficiency(rec: Seq<Seq<u8>>, cm: ColumnMap)
    requires
        identifier_spec(rec).len() > 0,
        per100g_spec(rec, cm).energy_kcal is Some,
        per100g_spec(rec, cm).carbohydrates is Some || per100g_spec(rec, cm).fat is Some
            || per100g_spec(rec, cm).proteins is Some,
    ensures
        accepted_spec(rec, cm),
{
}

/// Read both nutrient bases of a row.
fn build_nutrients(record: &Vec<Vec<u8>>, cm: &ColumnMap) -> (r: (NutrientSet, NutrientSet))
    ensures
        r.0 == per100g_spec(views_of(record@), *cm),
        r.1 == serving_nut_spec(views_of(record@), *cm),
        ns_ok(r.0),
        ns_ok(r.1),
{
    let per100g = NutrientSet {
        energy_kcal: num_field(record, cm.energy_kcal_100g),
        energy_kj: num_field(record, cm.energy_kj_100g),
        carbohydrates: num_field(record, cm.carbohydrates_100g),
        fat: num_field(record, cm.fat_100g),
        proteins: num_field(record, cm.proteins_100g),
        sugars: num_field(record, cm.sugars_100g),
        fiber: num_field(record, cm.fiber_100g),
        salt: num_field(record, cm.salt_100g),
    };
    let serving = NutrientSet {
        energy_kcal: num_field(record, cm.energy_kcal_serving),
        energy_kj: num_field(record, cm.energy_kj_serving),
        carbohydrates: num_field(record, cm.carbohydrates_serving),
        fat: num_field(record, cm.fat_serving),
        proteins: num_field(record, cm.proteins_serving),
        sugars: num_field(record, cm.sugars_serving),
        fiber: num_field(record, cm.fiber_serving),
        salt: num_field(record, cm.salt_serving),
    };
    (per100g, serving)
}

/// Transform one raw row.  `None` exactly when the identifier is empty or
/// neither nutrient basis is usable; otherwise the entity, its document,
/// its resolved countries and one catalog line per country.
#[verifier::rlimit(100)]
#[verifier::spinoff_prover]
pub fn process_single_record(
    record: &Vec<Vec<u8>>,
    cm: &ColumnMap,
    cache: &CountryCache,
) -> (r: Option<RecordOutput>)
    ensures
        (r is Some) == accepted_spec(views_of(record@), *cm),
        match r {
            Some(out) => {
                let rec = views_of(record@);
                let sel = chosen_sel_spec(rec, *cm);
                &&& out.product.code@ == identifier_spec(rec)
                &&& opt_view(out.product.product_name) == text_field_spec(rec, cm.product_name)
                &&& opt_view(out.product.brands) == text_field_spec(rec, cm.brands)
                &&& opt_view(out.product.main_category) == text_field_spec(
                    rec,
                    cm.main_category,
                )
                &&& out.product.macros.serving_size == serving_info_spec(rec, *cm).0
                &&& out.product.macros.serving_quantity == serving_info_spec(rec, *cm).1
                &&& opt_view(out.product.macros.serving_unit) == serving_info_spec(rec, *cm).2
                &&& out.product.macros.serving == serving_nut_spec(rec, *cm)
                &&& out.product.macros.per100g == per100g_spec(rec, *cm)
                &&& out.product_json@ == product_json_spec(out.product)
                &&& codes_model(out.country_codes@) == normalize_spec(
                    cache.exact_model(),
                    cache.names_model(),
                    countries_text_spec(rec, *cm),
                )
                &&& out.catalog_lines@.len() == out.country_codes@.len()
                &&& forall|k: int|
                    0 <= k < out.catalog_lines@.len() ==> (#[trigger] out.catalog_lines@[k]).0@
                        == out.country_codes@[k]@ && out.catalog_lines@[k].1@ == catalog_line_of(
                        identifier_spec(rec),
                        text_field_spec(rec, cm.product_name),
                        text_field_spec(rec, cm.brands),
                        Some(out.country_codes@[k]@),
                        sel.serving_size,
                        sel.serving_unit,
                        sel.fiber,
                        sel.carbs,
                        sel.fat,
                        sel.protein,
                    )
                &&& opt_view(out.brand) == text_field_spec(rec, cm.brands)
            },
            None => true,
        },
{
    let ghost rec = views_of(record@);
    // Identifier.
    let code = if record.len() == 0 {
        Vec::new()
    } else {
        extract_identifier(record[0].as_slice())
    };
    proof {
        assert(record@.len() == 0 ==> code@ =~= identifier_spec(rec));
        assert(record@.len() > 0 ==> rec[0] == record@[0]@);
    }
    if code.len() == 0 {
        return None;
    }

    // Fields.
    let name = get_text_field(record, cm.product_name);
    let brand = get_text_field(record, cm.brands);
    let main_category = get_text_field(record, cm.main_category);
    let countries_cell = get_text_field(record, cm.countries);
    let countries_text = match &countries_cell {
        Some(c) => vstd::slice::slice_to_vec(c.as_slice()),
        None => Vec::new(),
    };
    proof {
        assert(countries_text@ == countries_text_spec(rec, *cm));
    }
    let country_codes = normalize_country_codes(cache, countries_text.as_slice());

    // Serving values.
    let size_cell = get_raw_field(record, cm.serving_size);
    let qty_cell = get_raw_field(record, cm.serving_quantity);
    let sv: ServingInfo = parse_serving(&size_cell, &qty_cell);

    // Nutrient bases.
    let bases = build_nutrients(record, cm);
    let per100g = bases.0;
    let serving = bases.1;

    // Inclusion rule.
    let serving_complete = serving.energy_kcal.is_some() && sv.raw_size.is_some()
        && sv.unit.is_some() && serving.fiber.is_some() && serving.carbohydrates.is_some()
        && serving.fat.is_some() && serving.proteins.is_some();
    let per100g_ok = per100g.energy_kcal.is_some() && (per100g.carbohydrates.is_some()
        || per100g.fat.is_some() || per100g.proteins.is_some());
    proof {
        assert(serving_complete == sel_complete(serving_sel_spec(rec, *cm)));
        assert(per100g_ok == per100g_sufficient(per100g_sel_spec(rec, *cm)));
    }
    if !serving_complete && !per100g_ok {
        return None;
    }

    let out = finish_record(
        code,
        name,
        brand,
        main_category,
        country_codes,
        sv,
        per100g,
        serving,
        serving_complete,
    );
    proof {
        let sel = chosen_sel_spec(rec, *cm);
        assert(sel.serving_size == (if serving_complete {
            sv.raw_size
        } else {
            Some(dec_100())
        }));
        assert(sel.serving_unit == (if serving_complete {
            opt_view(sv.unit)
        } else {
            Some("g".spec_bytes())
        }));
    }
    Some(out)
}

/// Assemble the output of one accepted row: the entity, its document and
/// one catalog line per country, on the chosen basis.
#[verifier::rlimit(100)]
#[verifier::spinoff_prover]
fn finish_record(
    code: Vec<u8>,
    name: Option<Vec<u8>>,
    brand: Option<Vec<u8>>,
    main_category: Option<Vec<u8>>,
    country_codes: Vec<Vec<u8>>,
    sv: ServingInfo,
    per100g: NutrientSet,
    serving: NutrientSet,
    use_serving: bool,
) -> (out: RecordOutput)
    requires
        ns_ok(per100g),
        ns_ok(serving),
        dec_ok(sv.raw_size),
        dec_ok(sv.quantity),
    ensures
        out.product.code@ == code@,
        opt_view(out.product.product_name) == opt_view(name),
        opt_view(out.product.brands) == opt_view(brand),
        opt_view(out.product.main_category) == opt_view(main_category),
        out.product.macros.serving_size == sv.raw_size,
        out.product.macros.serving_quantity == sv.quantity,
        opt_view(out.product.macros.serving_unit) == opt_view(sv.unit),
        out.product.macros.serving == serving,
        out.product.macros.per100g == per100g,
        out.product_json@ == product_json_spec(out.product),
        codes_model(out.country_codes@) == codes_model(country_codes@),
        out.catalog_lines@.len() == out.country_codes@.len(),
        forall|k: int|
            0 <= k < out.catalog_lines@.len() ==> (#[trigger] out.catalog_lines@[k]).0@
                == out.country_codes@[k]@ && out.catalog_lines@[k].1@ == catalog_line_of(
                code@,
                opt_view(name),
                opt_view(brand),
                Some(out.country_codes@[k]@),
                if use_serving {
                    sv.raw_size
                } else {
                    Some(dec_100())
                },
                if use_serving {
                    opt_view(sv.unit)
                } else {
                    Some("g".spec_bytes())
                },
                if use_serving {
                    serving.fiber
                } else {
                    per100g.fiber
                },
                if use_serving {
                    serving.carbohydrates
                } else {
                    per100g.carbohydrates
                },
                if use_serving {
                    serving.fat
                } else {
                    per100g.fat
                },
                if use_serving {
                    serving.proteins
                } else {
                    per100g.proteins
                },
            ),
        opt_view(out.brand) == opt_view(brand),
{
    let product = Product {
        code,
        product_name: name,
        brands: dup_opt(&brand),
        main_category,
        macros: Macros {
            serving_size: sv.raw_size,
            serving_quantity: sv.quantity,
            serving_unit: sv.unit,
            serving,
            per100g,
        },
    };
    let doc = product_json(&product);

    let sel_size: Option<Decimal>;
    let sel_unit: Option<Vec<u8>>;
    let sel_fiber: Option<Decimal>;
    let sel_carbs: Option<Decimal>;
    let sel_fat: Option<Decimal>;
    let sel_protein: Option<Decimal>;
    if use_serving {
        sel_size = product.macros.serving_size;
        sel_unit = dup_opt(&product.macros.serving_unit);
        sel_fiber = product.macros.serving.fiber;
        sel_carbs = product.macros.serving.carbohydrates;
        sel_fat = product.macros.serving.fat;
        sel_protein = product.macros.serving.proteins;
    } else {
        sel_size = Some(Decimal { neg: false, mantissa: 100, scale: 0 });
        sel_unit = Some(str_bytes("g"));
        sel_fiber = product.macros.per100g.fiber;
        sel_carbs = product.macros.per100g.carbohydrates;
        sel_fat = product.macros.per100g.fat;
        sel_protein = product.macros.per100g.proteins;
    }

    let catalog_lines = build_catalog_lines(
        &country_codes,
        &product.code,
        &product.product_name,
        &brand,
        sel_size,
        &sel_unit,
        sel_fiber,
        sel_carbs,
        sel_fat,
        sel_protein,
    );

    RecordOutput { product, product_json: doc, country_codes, catalog_lines, brand }
}

} // verus!
