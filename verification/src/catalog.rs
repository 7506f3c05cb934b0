//! The catalog side of the pipeline: the append-only per-country catalog
//! registry, the run counters, the catalog file paths, and the black-box
//! compression step applied to each closed catalog stream.

use vstd::prelude::*;
use vstd::string::StringSliceAdditionalSpecFns;
use crate::country::codes_model;
use crate::textutil::{eq_bytes, str_bytes};

verus! {

/// What the brotli encoder produces for a byte string, at its default
/// parameters.  The encoding is a function of the input alone.
pub uninterp spec fn brotli_of(data: Seq<u8>) -> Seq<u8>;

/// Relies on `brotli::CompressorWriter::with_params` with the default
/// `BrotliEncoderParams`: writing the whole input through it and letting
/// it flush on drop yields the brotli encoding of the input.
#[verifier::external_body]
pub fn compress_bytes(data: &[u8]) -> (r: Vec<u8>)
    ensures
        r@ == brotli_of(data@),
{
    let mut out: Vec<u8> = Vec::new();
    {
        let mut w = brotli::CompressorWriter::with_params(
            &mut out,
            4096,
            &brotli::enc::BrotliEncoderParams::default(),
        );
        let _ = std::io::Write::write_all(&mut w, data);
        let _ = std::io::Write::flush(&mut w);
    }
    out
}

/// The relative path of one country's uncompressed catalog stream.
pub open spec fn catalog_path_spec(country: Seq<u8>) -> Seq<u8> {
    country + "/catalog.jsonl".spec_bytes()
}

/// The relative path of its compressed form.
pub open spec fn compressed_catalog_path_spec(country: Seq<u8>) -> Seq<u8> {
    country + "/catalog.jsonl.br".spec_bytes()
}

pub fn catalog_path(country: &[u8]) -> (r: Vec<u8>)
    ensures
        r@ == catalog_path_spec(country@),
{
    let mut r = vstd::slice::slice_to_vec(country);
    crate::textutil::push_all(&mut r, str_bytes("/catalog.jsonl").as_slice());
    r
}

pub fn compressed_catalog_path(country: &[u8]) -> (r: Vec<u8>)
    ensures
        r@ == compressed_catalog_path_spec(country@),
{
    let mut r = vstd::slice::slice_to_vec(country);
    crate::textutil::push_all(&mut r, str_bytes("/catalog.jsonl.br").as_slice());
    r
}

/// The set of countries whose catalog stream has been opened, in
/// first-seen order and without duplicates.  It names the files to close
/// and compress when the run ends.
pub struct CatalogRegistry {
    pub countries: Vec<Vec<u8>>,
}

impl CatalogRegistry {
    /// No duplicates.
    pub open spec fn wf(&self) -> bool {
        forall|i: int, j: int|
            0 <= i < j < self.countries@.len() ==> codes_model(self.countries@)[i] != codes_model(
                self.countries@,
            )[j]
    }

    pub fn new() -> (r: CatalogRegistry)
        ensures
            r.wf(),
            r.countries@.len() == 0,
    {
        CatalogRegistry { countries: Vec::new() }
    }

    /// Record a country; the order of first appearances is kept and a
    /// repeated country changes nothing.
    pub fn note_country(&mut self, country: &[u8])
        requires
            old(self).wf(),
        ensures
            final(self).wf(),
            codes_model(final(self).countries@) == (if codes_model(
                old(self).countries@,
            ).contains(country@) {
                codes_model(old(self).countries@)
            } else {
                codes_model(old(self).countries@).push(country@)
            }),
    {
        let n = self.countries.len();
        let ghost m0 = codes_model(self.countries@);
        let mut i: usize = 0;
        while i < n
            invariant
                n == self.countries@.len(),
                0 <= i <= n,
                *self == *old(self),
                old(self).wf(),
                m0 == codes_model(self.countries@),
                forall|j: int| 0 <= j < i ==> m0[j] != country@,
            decreases n - i,
        {
            if eq_bytes(self.countries[i].as_slice(), country) {
                proof {
                    assert(m0[i as int] == country@);
                    assert(m0.contains(country@));
                }
                return ;
            }
            i += 1;
        }
        proof {
            if m0.contains(country@) {
                let j = choose|j: int| 0 <= j < m0.len() && m0[j] == country@;
                assert(false);
            }
        }
        self.countries.push(vstd::slice::slice_to_vec(country));
        proof {
            assert(codes_model(self.countries@) =~= m0.push(country@));
            assert(self.wf());
        }
    }
}

/// The run counters the orchestrator reports at the end.
#[derive(Clone, Copy, Debug, PartialEq, Eq, Structural)]
pub struct PipelineStats {
    pub processed: u64,
    pub skipped: u64,
}

impl PipelineStats {
    pub fn new() -> (r: PipelineStats)
        ensures
            r.processed == 0,
            r.skipped == 0,
    {
        PipelineStats { processed: 0, skipped: 0 }
    }

    /// Count one row: accepted rows advance `processed`, rejected and
    /// malformed rows advance `skipped`; both saturate at the limit.
    pub fn record_row(&mut self, accepted: bool)
        ensures
            accepted ==> final(self).processed == crate::server::add_sat(old(self).processed, 1)
                && final(self).skipped == old(self).skipped,
            !accepted ==> final(self).skipped == crate::server::add_sat(old(self).skipped, 1)
                && final(self).processed == old(self).processed,
    {
        if accepted {
            if self.processed < u64::MAX {
                self.processed = self.processed + 1;
            }
        } else {
            if self.skipped < u64::MAX {
                self.skipped = self.skipped + 1;
            }
        }
    }
}

/// Whether a batch has grown to its bound and must be handed over.
pub fn batch_full(len: usize, batch_size: usize) -> (r: bool)
    ensures
        r == (len >= batch_size),
{
    len >= batch_size
}

} // verus!
