//! Pure decision logic of the static file responder: content types and
//! encodings by file-name convention, request-path resolution with
//! traversal rejection, bandwidth accounting, and the response plan for
//! one request.  The surrounding HTTP and TLS plumbing lives outside the
//! library and only executes these decisions.

use vstd::prelude::*;
use vstd::string::StringSliceAdditionalSpecFns;
use crate::textutil::{ends_with, ends_with_spec, eq_bytes, push_all, str_bytes};

verus! {

/// Content type by extension convention: compressed JSON-Lines files keep
/// their own types, everything else serves as JSON.
pub open spec fn content_type_spec(p: Seq<u8>) -> Seq<char> {
    if ends_with_spec(p, ".jsonl.gz".spec_bytes()) {
        "application/gzip"@
    } else if ends_with_spec(p, ".jsonl.br".spec_bytes()) {
        "application/x-ndjson"@
    } else {
        "application/json"@
    }
}

/// Content encoding by extension: gzip, brotli, or plain text.
pub open spec fn content_encoding_spec(p: Seq<u8>) -> Seq<char> {
    if ends_with_spec(p, ".gz".spec_bytes()) {
        "gzip"@
    } else if ends_with_spec(p, ".br".spec_bytes()) {
        "br"@
    } else {
        "utf-8"@
    }
}

/// Leading slashes of the request path, stripped.
pub open spec fn strip_slashes_spec(p: Seq<u8>) -> Seq<u8>
    decreases p.len(),
{
    if p.len() > 0 && p[0] == 47 {
        strip_slashes_spec(p.drop_first())
    } else {
        p
    }
}

/// A path segment equal to `..` somewhere in the cleaned path.
pub open spec fn has_dotdot_spec(p: Seq<u8>) -> bool {
    exists|i: int|
        0 <= i && i + 2 <= p.len() && #[trigger] p[i] == 46 && p[i + 1] == 46 && (i == 0 || p[i
            - 1] == 47) && (i + 2 == p.len() || p[i + 2] == 47)
}

/// The file the request resolves to: the cleaned path under the static
/// root, or the not-found document on a traversal attempt.
pub open spec fn file_path_spec(static_dir: Seq<u8>, request_path: Seq<u8>) -> Seq<u8> {
    let clean = strip_slashes_spec(request_path);
    if has_dotdot_spec(clean) {
        static_dir + "/404.json".spec_bytes()
    } else {
        static_dir + "/".spec_bytes() + clean
    }
}

/// One bandwidth ledger entry: bytes served and request count.
pub struct ServerState {
    pub static_dir: Vec<u8>,
    pub bandwidth_stats: Vec<(Vec<u8>, (u64, u64))>,
}

/// View of the ledger.
pub open spec fn stats_model(v: Seq<(Vec<u8>, (u64, u64))>) -> Seq<(Seq<u8>, (u64, u64))> {
    Seq::new(v.len(), |i: int| (v[i].0@, v[i].1))
}

impl ServerState {
    /// A fresh server over one static root.
    pub fn new(static_dir: Vec<u8>) -> (r: ServerState)
        ensures
            r.static_dir@ == static_dir@,
            r.bandwidth_stats@.len() == 0,
    {
        ServerState { static_dir, bandwidth_stats: Vec::new() }
    }

    /// Record one served file: its byte count is added (saturating) and
    /// its request count incremented; a first request creates the entry.
    pub fn log_bandwidth(&mut self, file_path: &[u8], bytes: u64)
        ensures
            final(self).static_dir@ == old(self).static_dir@,
            ({
                let old_stats = stats_model(old(self).bandwidth_stats@);
                let new_stats = stats_model(final(self).bandwidth_stats@);
                match first_stat(old_stats, file_path@) {
                    Some(i) => {
                        &&& new_stats =~= old_stats.update(
                            i,
                            (
                                file_path@,
                                (
                                    add_sat(old_stats[i].1.0, bytes),
                                    add_sat(old_stats[i].1.1, 1),
                                ),
                            ),
                        )
                    },
                    None => new_stats =~= old_stats.push((file_path@, (bytes, 1u64))),
                }
            }),
    {
        let n = self.bandwidth_stats.len();
        let ghost old_stats = stats_model(self.bandwidth_stats@);
        let mut i: usize = 0;
        while i < n
            invariant
                n == self.bandwidth_stats@.len(),
                0 <= i <= n,
                *self == *old(self),
                old_stats == stats_model(self.bandwidth_stats@),
                forall|j: int| 0 <= j < i ==> (#[trigger] old_stats[j]).0 != file_path@,
            decreases n - i,
        {
            if eq_bytes(self.bandwidth_stats[i].0.as_slice(), file_path) {
                proof {
                    lemma_first_stat_skip(old_stats, file_path@, i as int);
                    assert(first_stat(old_stats, file_path@) == Some(i as int));
                }
                let entry = self.bandwidth_stats.remove(i);
                let b2 = if entry.1.0 <= u64::MAX - bytes {
                    entry.1.0 + bytes
                } else {
                    u64::MAX
                };
                let r2 = if entry.1.1 < u64::MAX {
                    entry.1.1 + 1
                } else {
                    u64::MAX
                };
                let name = vstd::slice::slice_to_vec(file_path);
                self.bandwidth_stats.insert(i, (name, (b2, r2)));
                proof {
                    assert(stats_model(self.bandwidth_stats@) =~= old_stats.update(
                        i as int,
                        (
                            file_path@,
                            (
                                add_sat(old_stats[i as int].1.0, bytes),
                                add_sat(old_stats[i as int].1.1, 1),
                            ),
                        ),
                    ));
                }
                return ;
            }
            i += 1;
        }
        proof {
            lemma_first_stat_skip(old_stats, file_path@, n as int);
            assert(first_stat(old_stats, file_path@) is None);
        }
        let name = vstd::slice::slice_to_vec(file_path);
        self.bandwidth_stats.push((name, (bytes, 1)));
        proof {
            assert(stats_model(self.bandwidth_stats@) =~= old_stats.push((
                file_path@,
                (bytes, 1u64),
            )));
        }
    }

    /// Content type of a file path.
    pub fn get_content_type(&self, file_path: &[u8]) -> (r: &'static str)
        ensures
            r@ == content_type_spec(file_path@),
    {
        let gz = str_bytes(".jsonl.gz");
        if ends_with(file_path, gz.as_slice()) {
            return "application/gzip";
        }
        let br = str_bytes(".jsonl.br");
        if ends_with(file_path, br.as_slice()) {
            return "application/x-ndjson";
        }
        "application/json"
    }

    /// Content encoding of a file path.
    pub fn get_content_encoding(&self, file_path: &[u8]) -> (r: &'static str)
        ensures
            r@ == content_encoding_spec(file_path@),
    {
        let gz = str_bytes(".gz");
        if ends_with(file_path, gz.as_slice()) {
            return "gzip";
        }
        let br = str_bytes(".br");
        if ends_with(file_path, br.as_slice()) {
            return "br";
        }
        "utf-8"
    }

    /// Resolve a request path under the static root, sending traversal
    /// attempts to the not-found document.
    pub fn get_file_path(&self, request_path: &[u8]) -> (r: Vec<u8>)
        ensures
            r@ == file_path_spec(self.static_dir@, request_path@),
    {
        let n = request_path.len();
        let mut lo: usize = 0;
        proof {
            assert(request_path@.skip(0) =~= request_path@);
        }
        while lo < n && request_path[lo] == 47
            invariant
                n == request_path@.len(),
                0 <= lo <= n,
                strip_slashes_spec(request_path@) == strip_slashes_spec(
                    request_path@.skip(lo as int),
                ),
            decreases n - lo,
        {
            proof {
                assert(request_path@.skip(lo as int).drop_first() =~= request_path@.skip(lo + 1));
            }
            lo += 1;
        }
        let ghost clean = request_path@.skip(lo as int);
        proof {
            assert(strip_slashes_spec(clean) == clean);
        }
        let mut cleanv: Vec<u8> = Vec::new();
        let mut i: usize = lo;
        while i < n
            invariant
                lo <= i <= n == request_path@.len(),
                cleanv@ =~= request_path@.subrange(lo as int, i as int),
            decreases n - i,
        {
            cleanv.push(request_path[i]);
            proof {
                assert(request_path@.subrange(lo as int, i + 1) =~= request_path@.subrange(
                    lo as int,
                    i as int,
                ).push(request_path@[i as int]));
            }
            i += 1;
        }
        proof {
            assert(cleanv@ =~= clean);
        }
        if has_dotdot(cleanv.as_slice()) {
            let mut r = vstd::slice::slice_to_vec(self.static_dir.as_slice());
            push_all(&mut r, str_bytes("/404.json").as_slice());
            return r;
        }
        let mut r = vstd::slice::slice_to_vec(self.static_dir.as_slice());
        push_all(&mut r, str_bytes("/").as_slice());
        push_all(&mut r, cleanv.as_slice());
        proof {
            assert(r@ =~= self.static_dir@ + "/".spec_bytes() + clean);
        }
        r
    }
}

/// Saturating 64-bit addition.
pub open spec fn add_sat(a: u64, b: u64) -> u64 {
    if a + b <= u64::MAX {
        (a + b) as u64
    } else {
        u64::MAX
    }
}

/// First ledger position of a file.
#[verifier::opaque]
pub open spec fn first_stat(stats: Seq<(Seq<u8>, (u64, u64))>, name: Seq<u8>) -> Option<int> {
    first_stat_from(stats, name, 0)
}

pub open spec fn first_stat_from(
    stats: Seq<(Seq<u8>, (u64, u64))>,
    name: Seq<u8>,
    i: int,
) -> Option<int>
    decreases stats.len() - i,
{
    if i < 0 || i >= stats.len() {
        None
    } else if stats[i].0 == name {
        Some(i)
    } else {
        first_stat_from(stats, name, i + 1)
    }
}

proof fn lemma_first_stat_skip(stats: Seq<(Seq<u8>, (u64, u64))>, name: Seq<u8>, k: int)
    requires
        0 <= k <= stats.len(),
        forall|j: int| 0 <= j < k ==> (#[trigger] stats[j]).0 != name,
    ensures
        first_stat(stats, name) == first_stat_from(stats, name, k),
    decreases k,
{
    reveal(first_stat);
    if k > 0 {
        lemma_first_stat_skip(stats, name, k - 1);
        assert(first_stat_from(stats, name, k - 1) == first_stat_from(stats, name, k));
    }
}

/// A `..` path segment, executable check.
pub fn has_dotdot(p: &[u8]) -> (r: bool)
    ensures
        r == has_dotdot_spec(p@),
{
    let n = p.len();
    if n < 2 {
        proof {
            assert(!has_dotdot_spec(p@));
        }
        return false;
    }
    let mut i: usize = 0;
    while i <= n - 2
        invariant
            2 <= n == p@.len(),
            0 <= i && i + 1 <= n,
            forall|j: int|
                0 <= j < i ==> !(#[trigger] p@[j] == 46 && p@[j + 1] == 46 && (j == 0 || p@[j
                    - 1] == 47) && (j + 2 == p@.len() || p@[j + 2] == 47)),
        decreases n - i,
    {
        if p[i] == 46 && p[i + 1] == 46 {
            let pre_ok = i == 0 || p[i - 1] == 47;
            let post_ok = i + 2 == n || p[i + 2] == 47;
            if pre_ok && post_ok {
                proof {
                    assert(has_dotdot_spec(p@));
                }
                return true;
            }
        }
        i += 1;
    }
    proof {
        assert forall|j: int| !(0 <= j && j + 2 <= p@.len() && #[trigger] p@[j] == 46 && p@[j + 1]
            == 46 && (j == 0 || p@[j - 1] == 47) && (j + 2 == p@.len() || p@[j + 2] == 47)) by {
            if 0 <= j && j + 2 <= p@.len() {
                assert(j < i);
            }
        }
    }
    false
}

/// What probing the resolved file found.
pub enum FileProbe {
    Missing,
    Directory,
    ReadErr,
    Contents(Vec<u8>),
}

/// The plan for one response: status, headers and body.
pub struct ResponsePlan {
    pub status: u16,
    pub content_type: &'static str,
    pub content_encoding: Option<&'static str>,
    pub body: Vec<u8>,
    pub log_name: Option<Vec<u8>>,
}

/// The body served for each non-file case.
pub open spec fn fixed_body(status: u16, root: bool) -> Seq<u8> {
    if status == 200 && root {
        "{\"message\": \"static file index\", \"endpoints\": [\"/static/*\"]}".spec_bytes()
    } else if status == 405 {
        "{\"error\": \"Method not allowed\"}".spec_bytes()
    } else if status == 404 {
        "{\"error\": \"File not found\"}".spec_bytes()
    } else if status == 400 {
        "{\"error\": \"Path is a directory\"}".spec_bytes()
    } else {
        "{\"error\": \"Internal server error\"}".spec_bytes()
    }
}

/// Decide one request: OPTIONS is allowed through empty-bodied, only GET
/// is served, the root path answers with a fixed message, and a probed
/// file yields 404, 400, 500 or its contents with type and encoding by
/// convention.  Only a served file is named for the bandwidth ledger:
/// every other plan carries no log name.
pub fn plan_response(
    state: &ServerState,
    method: &[u8],
    path: &[u8],
    probe: FileProbe,
) -> (r: ResponsePlan)
    ensures
        ({
            let file = file_path_spec(state.static_dir@, path@);
            if method@ == "OPTIONS".spec_bytes() {
                r.status == 200 && r.body@.len() == 0 && r.log_name is None
            } else if method@ != "GET".spec_bytes() {
                r.status == 405 && r.body@ == fixed_body(405, false) && r.log_name is None
            } else if path@.len() == 0 || path@ == "/".spec_bytes() {
                r.status == 200 && r.body@ == fixed_body(200, true) && r.log_name is None
            } else {
                match probe {
                    FileProbe::Missing => r.status == 404 && r.body@ == fixed_body(404, false)
                        && r.log_name is None,
                    FileProbe::Directory => r.status == 400 && r.body@ == fixed_body(400, false)
                        && r.log_name is None,
                    FileProbe::ReadErr => r.status == 500 && r.body@ == fixed_body(500, false)
                        && r.log_name is None,
                    FileProbe::Contents(c) => r.status == 200 && r.body@ == c@ && r.content_type@
                        == content_type_spec(file) && (r.content_encoding matches Some(e) && e@
                        == content_encoding_spec(file)) && (r.log_name matches Some(n) && n@
                        == file),
                }
            }
        }),
{
    let options = str_bytes("OPTIONS");
    if eq_bytes(method, options.as_slice()) {
        return ResponsePlan {
            status: 200,
            content_type: "application/json",
            content_encoding: None,
            body: Vec::new(),
            log_name: None,
        };
    }
    let get = str_bytes("GET");
    if !eq_bytes(method, get.as_slice()) {
        return ResponsePlan {
            status: 405,
            content_type: "application/json",
            content_encoding: None,
            body: str_bytes("{\"error\": \"Method not allowed\"}"),
            log_name: None,
        };
    }
    let slash = str_bytes("/");
    if path.len() == 0 || eq_bytes(path, slash.as_slice()) {
        return ResponsePlan {
            status: 200,
            content_type: "application/json",
            content_encoding: None,
            body: str_bytes(
                "{\"message\": \"static file index\", \"endpoints\": [\"/static/*\"]}",
            ),
            log_name: None,
        };
    }
    let file = state.get_file_path(path);
    match probe {
        FileProbe::Missing => ResponsePlan {
            status: 404,
            content_type: "application/json",
            content_encoding: None,
            body: str_bytes("{\"error\": \"File not found\"}"),
            log_name: None,
        },
        FileProbe::Directory => ResponsePlan {
            status: 400,
            content_type: "application/json",
            content_encoding: None,
            body: str_bytes("{\"error\": \"Path is a directory\"}"),
            log_name: None,
        },
        FileProbe::ReadErr => ResponsePlan {
            status: 500,
            content_type: "application/json",
            content_encoding: None,
            body: str_bytes("{\"error\": \"Internal server error\"}"),
            log_name: None,
        },
        FileProbe::Contents(c) => {
            let ct = state.get_content_type(file.as_slice());
            let ce = state.get_content_encoding(file.as_slice());
            ResponsePlan {
                status: 200,
                content_type: ct,
                content_encoding: Some(ce),
                body: c,
                log_name: Some(file),
            }
        },
    }
}

} // verus!
