//! Field extraction: the header row is turned into a column map once, and
//! each data row is read through it.  Unknown headers are ignored; missing
//! columns, out-of-range cells and empty cells all read as absent.

use vstd::prelude::*;
use vstd::string::StringSliceAdditionalSpecFns;
use crate::textutil::{eq_bytes, str_bytes, trim, trim_spec};

verus! {

/// View of a vector of byte strings.
pub open spec fn views_of(v: Seq<Vec<u8>>) -> Seq<Seq<u8>> {
    Seq::new(v.len(), |i: int| v[i]@)
}

/// First column whose header equals `name`, if any.
pub open spec fn find_col(h: Seq<Seq<u8>>, name: Seq<u8>) -> Option<usize>
    decreases h.len(),
{
    if h.len() == 0 {
        None
    } else if h[0] == name {
        Some(0usize)
    } else {
        match find_col(h.drop_first(), name) {
            Some(i) => Some((i + 1) as usize),
            None => None,
        }
    }
}

/// Look a header name up in the header row; first match wins.
pub fn find_column(header: &Vec<Vec<u8>>, name: &[u8]) -> (r: Option<usize>)
    ensures
        r == find_col(views_of(header@), name@),
{
    let ghost h = views_of(header@);
    let n = header.len();
    let mut i: usize = 0;
    proof {
        assert(h.skip(0) =~= h);
        lemma_find_col_skip(h, name@, 0);
    }
    while i < n
        invariant
            h == views_of(header@),
            n == h.len() == header@.len(),
            0 <= i <= n,
            forall|j: int| 0 <= j < i ==> h[j] != name@,
            find_col(h, name@) == shift_col(find_col(h.skip(i as int), name@), i as int),
        decreases n - i,
    {
        proof {
            assert(h[i as int] == header@[i as int]@);
            assert(h.skip(i as int)[0] == h[i as int]);
            assert(h.skip(i as int).drop_first() =~= h.skip(i + 1));
        }
        if eq_bytes(header[i].as_slice(), name) {
            proof {
                assert(h.skip(i as int)[0] == name@);
                assert(find_col(h.skip(i as int), name@) == Some(0usize));
            }
            return Some(i);
        }
        proof {
            assert(h[i as int] != name@);
            lemma_find_col_skip(h, name@, i + 1);
        }
        i += 1;
    }
    proof {
        assert(h.skip(n as int) =~= Seq::<Seq<u8>>::empty());
    }
    None
}

/// Shift a column index by the number of skipped leading columns.
pub open spec fn shift_col(r: Option<usize>, k: int) -> Option<usize> {
    match r {
        Some(i) => Some((i + k) as usize),
        None => None,
    }
}

proof fn lemma_find_col_skip(h: Seq<Seq<u8>>, name: Seq<u8>, k: int)
    requires
        h.len() <= usize::MAX,
        0 <= k <= h.len(),
        forall|j: int| 0 <= j < k ==> h[j] != name,
    ensures
        find_col(h, name) == shift_col(find_col(h.skip(k), name), k),
    decreases k,
{
    if k == 0 {
        assert(h.skip(0) =~= h);
        match find_col(h, name) {
            Some(i) => {
                assert(shift_col(Some(i), 0) == Some(i)) by {
                    assert((i + 0) as usize == i);
                }
            },
            None => {},
        }
    } else {
        assert(h[0] != name);
        lemma_find_col_skip(h.drop_first(), name, k - 1);
        assert(h.drop_first().skip(k - 1) =~= h.skip(k));
        lemma_find_col_bound(h.skip(k), name);
    }
}

proof fn lemma_find_col_bound(h: Seq<Seq<u8>>, name: Seq<u8>)
    ensures
        match find_col(h, name) {
            Some(i) => i < h.len(),
            None => true,
        },
    decreases h.len(),
{
    if h.len() > 0 && h[0] != name {
        lemma_find_col_bound(h.drop_first(), name);
    }
}

/// The column map: one optional column index per canonical field.
pub struct ColumnMap {
    pub product_name: Option<usize>,
    pub brands: Option<usize>,
    pub main_category: Option<usize>,
    pub countries: Option<usize>,
    pub serving_size: Option<usize>,
    pub serving_quantity: Option<usize>,
    pub energy_kcal_100g: Option<usize>,
    pub energy_kj_100g: Option<usize>,
    pub carbohydrates_100g: Option<usize>,
    pub fat_100g: Option<usize>,
    pub proteins_100g: Option<usize>,
    pub sugars_100g: Option<usize>,
    pub fiber_100g: Option<usize>,
    pub salt_100g: Option<usize>,
    pub energy_kcal_serving: Option<usize>,
    pub energy_kj_serving: Option<usize>,
    pub carbohydrates_serving: Option<usize>,
    pub fat_serving: Option<usize>,
    pub proteins_serving: Option<usize>,
    pub sugars_serving: Option<usize>,
    pub fiber_serving: Option<usize>,
    pub salt_serving: Option<usize>,
}

/// What `build_column_map` computes, field by field.
pub open spec fn column_map_spec(h: Seq<Seq<u8>>) -> ColumnMap {
    ColumnMap {
        product_name: find_col(h, "product_name".spec_bytes()),
        brands: find_col(h, "brands".spec_bytes()),
        main_category: find_col(h, "main_category".spec_bytes()),
        countries: find_col(h, "countries".spec_bytes()),
        serving_size: find_col(h, "serving_size".spec_bytes()),
        serving_quantity: find_col(h, "serving_quantity".spec_bytes()),
        energy_kcal_100g: find_col(h, "energy-kcal_100g".spec_bytes()),
        energy_kj_100g: find_col(h, "energy-kj_100g".spec_bytes()),
        carbohydrates_100g: find_col(h, "carbohydrates_100g".spec_bytes()),
        fat_100g: find_col(h, "fat_100g".spec_bytes()),
        proteins_100g: find_col(h, "proteins_100g".spec_bytes()),
        sugars_100g: find_col(h, "sugars_100g".spec_bytes()),
        fiber_100g: find_col(h, "fiber_100g".spec_bytes()),
        salt_100g: find_col(h, "salt_100g".spec_bytes()),
        energy_kcal_serving: find_col(h, "energy-kcal_serving".spec_bytes()),
        energy_kj_serving: find_col(h, "energy-kj_serving".spec_bytes()),
        carbohydrates_serving: find_col(h, "carbohydrates_serving".spec_bytes()),
        fat_serving: find_col(h, "fat_serving".spec_bytes()),
        proteins_serving: find_col(h, "proteins_serving".spec_bytes()),
        sugars_serving: find_col(h, "sugars_serving".spec_bytes()),
        fiber_serving: find_col(h, "fiber_serving".spec_bytes()),
        salt_serving: find_col(h, "salt_serving".spec_bytes()),
    }
}

/// Consult the header row once and record every field's column.
pub fn build_column_map(header: &Vec<Vec<u8>>) -> (r: ColumnMap)
    ensures
        r == column_map_spec(views_of(header@)),
{
    ColumnMap {
        product_name: find_column(header, str_bytes("product_name").as_slice()),
        brands: find_column(header, str_bytes("brands").as_slice()),
        main_category: find_column(header, str_bytes("main_category").as_slice()),
        countries: find_column(header, str_bytes("countries").as_slice()),
        serving_size: find_column(header, str_bytes("serving_size").as_slice()),
        serving_quantity: find_column(header, str_bytes("serving_quantity").as_slice()),
        energy_kcal_100g: find_column(header, str_bytes("energy-kcal_100g").as_slice()),
        energy_kj_100g: find_column(header, str_bytes("energy-kj_100g").as_slice()),
        carbohydrates_100g: find_column(header, str_bytes("carbohydrates_100g").as_slice()),
        fat_100g: find_column(header, str_bytes("fat_100g").as_slice()),
        proteins_100g: find_column(header, str_bytes("proteins_100g").as_slice()),
        sugars_100g: find_column(header, str_bytes("sugars_100g").as_slice()),
        fiber_100g: find_column(header, str_bytes("fiber_100g").as_slice()),
        salt_100g: find_column(header, str_bytes("salt_100g").as_slice()),
        energy_kcal_serving: find_column(header, str_bytes("energy-kcal_serving").as_slice()),
        energy_kj_serving: find_column(header, str_bytes("energy-kj_serving").as_slice()),
        carbohydrates_serving: find_column(
            header,
            str_bytes("carbohydrates_serving").as_slice(),
        ),
        fat_serving: find_column(header, str_bytes("fat_serving").as_slice()),
        proteins_serving: find_column(header, str_bytes("proteins_serving").as_slice()),
        sugars_serving: find_column(header, str_bytes("sugars_serving").as_slice()),
        fiber_serving: find_column(header, str_bytes("fiber_serving").as_slice()),
        salt_serving: find_column(header, str_bytes("salt_serving").as_slice()),
    }
}

/// Raw cell at an optional column: absent when the column is missing or
/// the row too short.
pub open spec fn raw_field_spec(rec: Seq<Seq<u8>>, col: Option<usize>) -> Option<Seq<u8>> {
    match col {
        None => None,
        Some(i) => if i < rec.len() {
            Some(rec[i as int])
        } else {
            None
        },
    }
}

/// Trimmed text field: absent when the cell is missing or trims to empty.
pub open spec fn text_field_spec(rec: Seq<Seq<u8>>, col: Option<usize>) -> Option<Seq<u8>> {
    match raw_field_spec(rec, col) {
        None => None,
        Some(c) => if trim_spec(c).len() == 0 {
            None
        } else {
            Some(trim_spec(c))
        },
    }
}

/// Read a raw cell.
pub fn get_raw_field(record: &Vec<Vec<u8>>, col: Option<usize>) -> (r: Option<Vec<u8>>)
    ensures
        match r {
            Some(v) => raw_field_spec(views_of(record@), col) == Some(v@),
            None => raw_field_spec(views_of(record@), col) is None,
        },
{
    match col {
        None => None,
        Some(i) => {
            if i < record.len() {
                Some(vstd::slice::slice_to_vec(record[i].as_slice()))
            } else {
                None
            }
        },
    }
}

/// Read a trimmed, non-empty text field.
pub fn get_text_field(record: &Vec<Vec<u8>>, col: Option<usize>) -> (r: Option<Vec<u8>>)
    ensures
        match r {
            Some(v) => text_field_spec(views_of(record@), col) == Some(v@),
            None => text_field_spec(views_of(record@), col) is None,
        },
{
    match get_raw_field(record, col) {
        None => None,
        Some(cell) => {
            let t = trim(cell.as_slice());
            if t.len() == 0 {
                None
            } else {
                Some(t)
            }
        },
    }
}

} // verus!
