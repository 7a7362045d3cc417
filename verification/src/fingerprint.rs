//! Content fingerprints for change detection: hashes of everything that
//! affects code generation (source content, metadata, generated output,
//! the manifest), and their comparison.

use vstd::prelude::*;
use vstd::string::StrSliceExecFns;
use sha2::Digest;
use crate::text::{chars_of, clone_strings, concat, decimal, push_char, str_eq, string_of_range, to_owned_string, views};
use crate::pipeline::CoreError;
use crate::types::{keys_sorted, lemma_map_insert_sorted, lemma_map_get_at, lemma_map_insert_at, map_get, map_insert, opt_str_view, str_less};

verus! {

broadcast use vstd::string::group_string_axioms;

/// The SHA-256 digest of `data`.
pub uninterp spec fn sha256(data: Seq<u8>) -> Seq<u8>;

/// `sha2::Sha256::digest`: the SHA-256 digest of `data`, 32 bytes.
#[verifier::external_body]
fn sha256_digest(data: &[u8]) -> (r: Vec<u8>)
    ensures
        r@ == sha256(data@),
        r@.len() == 32,
{
    sha2::Sha256::digest(data).to_vec()
}

/// std `SystemTime::now`, measured from the Unix epoch with
/// `duration_since`: `Ok` of the milliseconds since the epoch, or `Err` of
/// the milliseconds before it for a clock set before the epoch. Nothing is
/// promised of the value, which depends on the clock.
#[verifier::external_body]
fn system_time_since_epoch() -> (r: Result<u128, u128>) {
    match std::time::SystemTime::now().duration_since(std::time::UNIX_EPOCH) {
        Ok(d) => Ok(d.as_millis()),
        Err(e) => Err(e.duration().as_millis()),
    }
}

/// Milliseconds from the Unix epoch, negative before it, held to the range
/// of `i64`.
pub open spec fn epoch_millis_spec(t: Result<u128, u128>) -> int {
    match t {
        Ok(ms) => if ms > i64::MAX { i64::MAX as int } else { ms as int },
        Err(ms) => if ms > i64::MAX { -(i64::MAX as int) } else { -(ms as int) },
    }
}

/// A time read from the clock as milliseconds from the Unix epoch, negative
/// before it, held to the range of `i64`.
pub fn epoch_millis(t: Result<u128, u128>) -> (r: i64)
    ensures
        r as int == epoch_millis_spec(t),
{
    match t {
        Ok(ms) => if ms > i64::MAX as u128 { i64::MAX } else { ms as i64 },
        Err(ms) => if ms > i64::MAX as u128 { -i64::MAX } else { -(ms as i64) },
    }
}

/// A time read from the clock as milliseconds since the Unix epoch, 0 for a
/// clock set before it, held to the range of `u64`.
pub fn epoch_millis_unsigned(t: Result<u128, u128>) -> (r: u64)
    ensures
        r as int == match t {
            Ok(ms) => if ms > u64::MAX { u64::MAX as int } else { ms as int },
            Err(_) => 0,
        },
{
    match t {
        Ok(ms) => if ms > u64::MAX as u128 { u64::MAX } else { ms as u64 },
        Err(_) => 0,
    }
}

/// The lower-case hexadecimal digit for `d < 16`.
pub open spec fn hex_digit(d: int) -> char {
    if d < 10 {
        (48 + d) as char
    } else {
        (87 + d) as char
    }
}

/// Each byte as two lower-case hexadecimal digits, high half first.
pub open spec fn hex_lower(b: Seq<u8>) -> Seq<char>
    decreases b.len(),
{
    if b.len() == 0 {
        Seq::empty()
    } else {
        hex_lower(b.drop_last()) + seq![hex_digit(b.last() as int / 16), hex_digit(b.last() as int % 16)]
    }
}

/// The SHA-256 digest of `data` in lower-case hexadecimal.
pub open spec fn sha256_hex(data: Seq<u8>) -> Seq<char> {
    hex_lower(sha256(data))
}

proof fn lemma_hex_len(b: Seq<u8>)
    ensures
        hex_lower(b).len() == 2 * b.len(),
    decreases b.len(),
{
    if b.len() > 0 {
        lemma_hex_len(b.drop_last());
    }
}

fn hex_char(d: u8) -> (c: char)
    requires
        d < 16,
    ensures
        c == hex_digit(d as int),
{
    match d {
        0 => '0',
        1 => '1',
        2 => '2',
        3 => '3',
        4 => '4',
        5 => '5',
        6 => '6',
        7 => '7',
        8 => '8',
        9 => '9',
        10 => 'a',
        11 => 'b',
        12 => 'c',
        13 => 'd',
        14 => 'e',
        _ => 'f',
    }
}

/// The bytes in lower-case hexadecimal, two digits each.
pub fn hex_string(bytes: &[u8]) -> (r: String)
    ensures
        r@ == hex_lower(bytes@),
{
    let mut r = String::new();
    let mut i: usize = 0;
    while i < bytes.len()
        invariant
            i <= bytes.len(),
            r@ == hex_lower(bytes@.take(i as int)),
        decreases bytes.len() - i,
    {
        let b = bytes[i];
        push_char(&mut r, hex_char(b / 16));
        push_char(&mut r, hex_char(b % 16));
        proof {
            let t = bytes@.take(i + 1);
            assert(t.drop_last() =~= bytes@.take(i as int));
            assert(t.last() == b);
            assert(r@ =~= hex_lower(t));
        }
        i = i + 1;
    }
    assert(bytes@.take(i as int) =~= bytes@);
    r
}

/// The SHA-256 digest of `data` in lower-case hexadecimal, 64 digits.
pub fn sha256_hex_of(data: &[u8]) -> (r: String)
    ensures
        r@ == sha256_hex(data@),
        r@.len() == 64,
{
    let d = sha256_digest(data);
    proof {
        lemma_hex_len(d@);
    }
    hex_string(d.as_slice())
}

/// `a` comes before `b` byte by byte (a proper prefix first).
pub open spec fn bytes_lt(a: Seq<u8>, b: Seq<u8>) -> bool
    decreases a.len(),
{
    if a.len() == 0 {
        b.len() > 0
    } else if b.len() == 0 {
        false
    } else if a[0] != b[0] {
        a[0] < b[0]
    } else {
        bytes_lt(a.drop_first(), b.drop_first())
    }
}

/// The position at which `x` goes into `s`: before the first entry it
/// comes before, or last.
pub open spec fn insert_pos(s: Seq<Seq<u8>>, x: Seq<u8>) -> int
    decreases s.len(),
{
    if s.len() == 0 {
        0
    } else if bytes_lt(x, s[0]) {
        0
    } else {
        1 + insert_pos(s.drop_first(), x)
    }
}

/// Byte strings put into order one after another, each after the equal
/// ones before it.
pub open spec fn sort_bytes(parts: Seq<Seq<u8>>) -> Seq<Seq<u8>>
    decreases parts.len(),
{
    if parts.len() == 0 {
        Seq::empty()
    } else {
        let s = sort_bytes(parts.drop_last());
        s.insert(insert_pos(s, parts.last()), parts.last())
    }
}

/// The byte strings one after another.
pub open spec fn flatten(parts: Seq<Seq<u8>>) -> Seq<u8>
    decreases parts.len(),
{
    if parts.len() == 0 {
        Seq::empty()
    } else {
        flatten(parts.drop_last()) + parts.last()
    }
}

/// The UTF-8 bytes of a text.
pub open spec fn utf8(s: Seq<char>) -> Seq<u8> {
    vstd::utf8::encode_utf8(s)
}

/// Each file's path and content, one after another, in path order.
pub open spec fn files_bytes(files: Seq<(Seq<char>, Seq<u8>)>) -> Seq<u8>
    decreases files.len(),
{
    if files.len() == 0 {
        Seq::empty()
    } else {
        files_bytes(files.drop_last()) + utf8(files.last().0) + files.last().1
    }
}

/// Each file's path with the digest of its content, in path order.
pub open spec fn file_hashes(files: Seq<(Seq<char>, Seq<u8>)>) -> Seq<(Seq<char>, Seq<char>)> {
    files.map_values(|f: (Seq<char>, Seq<u8>)| (f.0, sha256_hex(f.1)))
}

/// The values of byte vectors.
pub open spec fn byte_views(v: Seq<Vec<u8>>) -> Seq<Seq<u8>> {
    v.map_values(|b: Vec<u8>| b@)
}

/// Whether `a` comes before `b` byte by byte.
pub fn bytes_less(a: &[u8], b: &[u8]) -> (r: bool)
    ensures
        r == bytes_lt(a@, b@),
{
    let mut i: usize = 0;
    assert(a@.skip(0) =~= a@);
    assert(b@.skip(0) =~= b@);
    while i < a.len() && i < b.len()
        invariant
            i <= a.len(),
            i <= b.len(),
            forall|j: int| 0 <= j < i ==> a@[j] == b@[j],
            bytes_lt(a@, b@) == bytes_lt(a@.skip(i as int), b@.skip(i as int)),
        decreases a.len() - i,
    {
        if a[i] != b[i] {
            assert(a@.skip(i as int)[0] == a@[i as int]);
            assert(b@.skip(i as int)[0] == b@[i as int]);
            return a[i] < b[i];
        }
        assert(a@.skip(i as int).drop_first() =~= a@.skip(i + 1));
        assert(b@.skip(i as int).drop_first() =~= b@.skip(i + 1));
        i = i + 1;
    }
    b.len() > i
}

/// Byte strings put into order, each after the equal ones before it.
pub fn sort_byte_strings(parts: &Vec<Vec<u8>>) -> (r: Vec<Vec<u8>>)
    ensures
        byte_views(r@) == sort_bytes(byte_views(parts@)),
{
    let ghost pv = byte_views(parts@);
    let mut out: Vec<Vec<u8>> = Vec::new();
    let mut k: usize = 0;
    assert(pv.take(0) =~= Seq::<Seq<u8>>::empty());
    assert(byte_views(out@) =~= Seq::<Seq<u8>>::empty());
    while k < parts.len()
        invariant
            pv == byte_views(parts@),
            k <= parts.len(),
            byte_views(out@) == sort_bytes(pv.take(k as int)),
        decreases parts.len() - k,
    {
        let x = parts[k].clone();
        assert(x@ == pv[k as int]);
        let ghost s = byte_views(out@);
        let mut i: usize = 0;
        assert(s.skip(0) =~= s);
        while i < out.len() && !bytes_less(x.as_slice(), out[i].as_slice())
            invariant
                s == byte_views(out@),
                i <= out.len(),
                insert_pos(s, x@) == i + insert_pos(s.skip(i as int), x@),
            decreases out.len() - i,
        {
            assert(s.skip(i as int)[0] == out@[i as int]@);
            assert(s.skip(i as int).drop_first() =~= s.skip(i + 1));
            i = i + 1;
        }
        proof {
            if i < out.len() {
                assert(s.skip(i as int)[0] == out@[i as int]@);
            } else {
                assert(s.skip(i as int).len() == 0);
            }
            assert(pv.take(k + 1).drop_last() =~= pv.take(k as int));
            assert(pv.take(k + 1).last() == x@);
        }
        out.insert(i, x);
        assert(byte_views(out@) =~= s.insert(i as int, x@));
        k = k + 1;
    }
    assert(pv.take(k as int) =~= pv);
    out
}

/// The byte strings one after another.
pub fn flatten_bytes(parts: &Vec<Vec<u8>>) -> (r: Vec<u8>)
    ensures
        r@ == flatten(byte_views(parts@)),
{
    let ghost pv = byte_views(parts@);
    let mut out: Vec<u8> = Vec::new();
    let mut k: usize = 0;
    assert(pv.take(0) =~= Seq::<Seq<u8>>::empty());
    while k < parts.len()
        invariant
            pv == byte_views(parts@),
            k <= parts.len(),
            out@ == flatten(pv.take(k as int)),
        decreases parts.len() - k,
    {
        let mut p = parts[k].clone();
        assert(p@ == pv[k as int]);
        assert(pv.take(k + 1).drop_last() =~= pv.take(k as int));
        out.append(&mut p);
        k = k + 1;
    }
    assert(pv.take(k as int) =~= pv);
    out
}


/// Where a source's content comes from, and what identifies its version.
#[derive(Debug, Clone)]
pub enum SourceInfo {
    /// A Git repository.
    GitRepo {
        url: String,
        commit: String,
        paths: Vec<String>,
        /// ETags or last-modified headers, by name, if available.
        http_metadata: Option<Vec<(String, String)>>,
    },
    /// The API of a Kubernetes cluster.
    K8sCluster {
        version: String,
        server_version: String,
        /// Digest of all CRD resource versions.
        api_resources_hash: String,
    },
    /// A collection of URLs.
    UrlCollection {
        base_url: String,
        urls: Vec<String>,
        etags: Vec<Option<String>>,
        /// Milliseconds since the Unix epoch.
        last_modified: Vec<Option<i64>>,
    },
    /// Local files.
    LocalFiles {
        paths: Vec<String>,
        /// Modification times, in milliseconds since the Unix epoch.
        mtimes: Vec<u64>,
        file_sizes: Vec<u64>,
    },
    /// The core Kubernetes types from their OpenAPI specification.
    K8sCore {
        version: String,
        openapi_hash: String,
        spec_url: String,
    },
}

/// The values of optional strings.
pub open spec fn opt_views(v: Seq<Option<String>>) -> Seq<Option<Seq<char>>> {
    v.map_values(|o: Option<String>| opt_str_view(o))
}

/// The values of string pairs.
pub open spec fn pair_views(v: Seq<(String, String)>) -> Seq<(Seq<char>, Seq<char>)> {
    v.map_values(|p: (String, String)| (p.0@, p.1@))
}

/// The values of optional string pairs.
pub open spec fn opt_pair_views(o: Option<Vec<(String, String)>>) -> Option<Seq<(Seq<char>, Seq<char>)>> {
    match o {
        Some(v) => Some(pair_views(v@)),
        None => None,
    }
}

/// Two source descriptions hold the same values.
pub open spec fn same_source(a: SourceInfo, b: SourceInfo) -> bool {
    match (a, b) {
        (
            SourceInfo::GitRepo { url: u1, commit: c1, paths: p1, http_metadata: h1 },
            SourceInfo::GitRepo { url: u2, commit: c2, paths: p2, http_metadata: h2 },
        ) => u1@ == u2@ && c1@ == c2@ && views(p1@) == views(p2@) && opt_pair_views(h1)
            == opt_pair_views(h2),
        (
            SourceInfo::K8sCluster { version: v1, server_version: s1, api_resources_hash: a1 },
            SourceInfo::K8sCluster { version: v2, server_version: s2, api_resources_hash: a2 },
        ) => v1@ == v2@ && s1@ == s2@ && a1@ == a2@,
        (
            SourceInfo::UrlCollection { base_url: b1, urls: u1, etags: e1, last_modified: l1 },
            SourceInfo::UrlCollection { base_url: b2, urls: u2, etags: e2, last_modified: l2 },
        ) => b1@ == b2@ && views(u1@) == views(u2@) && opt_views(e1@) == opt_views(e2@) && l1@
            == l2@,
        (
            SourceInfo::LocalFiles { paths: p1, mtimes: m1, file_sizes: f1 },
            SourceInfo::LocalFiles { paths: p2, mtimes: m2, file_sizes: f2 },
        ) => views(p1@) == views(p2@) && m1@ == m2@ && f1@ == f2@,
        (
            SourceInfo::K8sCore { version: v1, openapi_hash: o1, spec_url: s1 },
            SourceInfo::K8sCore { version: v2, openapi_hash: o2, spec_url: s2 },
        ) => v1@ == v2@ && o1@ == o2@ && s1@ == s2@,
        _ => false,
    }
}

/// A copy of a vector of plain values.
fn copy_values<T: Copy>(v: &Vec<T>) -> (r: Vec<T>)
    ensures
        r@ == v@,
{
    let mut r: Vec<T> = Vec::new();
    let mut i: usize = 0;
    while i < v.len()
        invariant
            i <= v.len(),
            r@ == v@.take(i as int),
        decreases v.len() - i,
    {
        r.push(v[i]);
        assert(v@.take(i + 1) =~= v@.take(i as int).push(v@[i as int]));
        i = i + 1;
    }
    assert(v@.take(i as int) =~= v@);
    r
}

/// A copy of a vector of optional strings.
fn copy_opt_strings(v: &Vec<Option<String>>) -> (r: Vec<Option<String>>)
    ensures
        opt_views(r@) == opt_views(v@),
{
    let mut r: Vec<Option<String>> = Vec::new();
    let mut i: usize = 0;
    while i < v.len()
        invariant
            i <= v.len(),
            opt_views(r@) == opt_views(v@).take(i as int),
        decreases v.len() - i,
    {
        let c = match &v[i] {
            Some(s) => Some(s.clone()),
            None => None,
        };
        let ghost r0 = r@;
        r.push(c);
        assert(opt_views(r@) =~= opt_views(r0).push(opt_str_view(c)));
        assert(opt_views(v@).take(i + 1) =~= opt_views(v@).take(i as int).push(opt_str_view(v@[i as int])));
        i = i + 1;
    }
    assert(opt_views(v@).take(i as int) =~= opt_views(v@));
    r
}

/// A copy of a vector of string pairs.
fn copy_pairs(v: &Vec<(String, String)>) -> (r: Vec<(String, String)>)
    ensures
        pair_views(r@) == pair_views(v@),
{
    let mut r: Vec<(String, String)> = Vec::new();
    let mut i: usize = 0;
    while i < v.len()
        invariant
            i <= v.len(),
            pair_views(r@) == pair_views(v@).take(i as int),
        decreases v.len() - i,
    {
        let c = (v[i].0.clone(), v[i].1.clone());
        let ghost r0 = r@;
        r.push(c);
        assert(pair_views(r@) =~= pair_views(r0).push((c.0@, c.1@)));
        assert(pair_views(v@).take(i + 1) =~= pair_views(v@).take(i as int).push(
            (v@[i as int].0@, v@[i as int].1@),
        ));
        i = i + 1;
    }
    assert(pair_views(v@).take(i as int) =~= pair_views(v@));
    r
}

impl SourceInfo {
    /// A copy holding the same values.
    pub fn duplicate(&self) -> (r: SourceInfo)
        ensures
            same_source(r, *self),
    {
        match self {
            SourceInfo::GitRepo { url, commit, paths, http_metadata } => SourceInfo::GitRepo {
                url: url.clone(),
                commit: commit.clone(),
                paths: clone_strings(paths),
                http_metadata: match http_metadata {
                    Some(m) => Some(copy_pairs(m)),
                    None => None,
                },
            },
            SourceInfo::K8sCluster { version, server_version, api_resources_hash } =>
                SourceInfo::K8sCluster {
                    version: version.clone(),
                    server_version: server_version.clone(),
                    api_resources_hash: api_resources_hash.clone(),
                },
            SourceInfo::UrlCollection { base_url, urls, etags, last_modified } =>
                SourceInfo::UrlCollection {
                    base_url: base_url.clone(),
                    urls: clone_strings(urls),
                    etags: copy_opt_strings(etags),
                    last_modified: copy_values(last_modified),
                },
            SourceInfo::LocalFiles { paths, mtimes, file_sizes } => SourceInfo::LocalFiles {
                paths: clone_strings(paths),
                mtimes: copy_values(mtimes),
                file_sizes: copy_values(file_sizes),
            },
            SourceInfo::K8sCore { version, openapi_hash, spec_url } => SourceInfo::K8sCore {
                version: version.clone(),
                openapi_hash: openapi_hash.clone(),
                spec_url: spec_url.clone(),
            },
        }
    }
}


/// A fingerprint of everything that decides what code generation produces.
#[derive(Debug, Clone)]
pub struct ContentFingerprint {
    /// Digest of the content that affects generation.
    pub content_hash: String,
    /// Digest of the source metadata (URLs, versions, ...).
    pub metadata_hash: String,
    /// Digest of the other digests, for a quick comparison.
    pub combined_hash: String,
    /// Digest of the generated files, where they were tracked.
    pub output_hash: Option<String>,
    /// Digest of the manifest, where it was tracked.
    pub manifest_hash: Option<String>,
    /// When the fingerprint was made, in milliseconds since the Unix epoch.
    pub created_at: i64,
    /// Where the source came from.
    pub source_info: SourceInfo,
    /// Version of the tool that made the fingerprint.
    pub amalgam_version: String,
    /// Each generated file's path with the digest of its content, in path
    /// order.
    pub generated_files: Option<Vec<(String, String)>>,
}

/// The UTF-8 bytes of each text.
pub open spec fn utf8s(v: Seq<Seq<char>>) -> Seq<Seq<u8>> {
    v.map_values(|t: Seq<char>| utf8(t))
}

/// The UTF-8 bytes of an optional text; none for none.
pub open spec fn opt_utf8(o: Option<Seq<char>>) -> Seq<u8> {
    match o {
        Some(t) => utf8(t),
        None => Seq::empty(),
    }
}

/// The content digest: of the parts in byte order, one after another.
pub open spec fn content_hash_of(parts: Seq<Seq<u8>>) -> Seq<char> {
    sha256_hex(flatten(sort_bytes(parts)))
}

/// The metadata digest: of the entries in byte order, one after another.
pub open spec fn metadata_hash_of(metadata: Seq<Seq<char>>) -> Seq<char> {
    sha256_hex(flatten(sort_bytes(utf8s(metadata))))
}

/// The output digest: of each file's path and content, in path order.
pub open spec fn output_hash_of(files: Option<Seq<(Seq<char>, Seq<u8>)>>) -> Option<Seq<char>> {
    match files {
        Some(f) => Some(sha256_hex(files_bytes(f))),
        None => None,
    }
}

/// The manifest digest.
pub open spec fn manifest_hash_of(manifest: Option<Seq<char>>) -> Option<Seq<char>> {
    match manifest {
        Some(m) => Some(sha256_hex(utf8(m))),
        None => None,
    }
}

/// The combined digest: of the content, metadata, output and manifest
/// digests, one after another, the absent ones left out.
pub open spec fn combined_hash_of(
    content: Seq<char>,
    metadata: Seq<char>,
    output: Option<Seq<char>>,
    manifest: Option<Seq<char>>,
) -> Seq<char> {
    sha256_hex(utf8(content) + utf8(metadata) + opt_utf8(output) + opt_utf8(manifest))
}

/// The per-file digests of tracked output files.
pub open spec fn generated_of(files: Option<Seq<(Seq<char>, Seq<u8>)>>) -> Option<Seq<(Seq<char>, Seq<char>)>> {
    match files {
        Some(f) => Some(file_hashes(f)),
        None => None,
    }
}

/// The values of path and content pairs.
pub open spec fn file_views(v: Seq<(String, Vec<u8>)>) -> Seq<(Seq<char>, Seq<u8>)> {
    v.map_values(|f: (String, Vec<u8>)| (f.0@, f.1@))
}

/// Collects what goes into a fingerprint.
pub struct FingerprintBuilder {
    content_parts: Vec<Vec<u8>>,
    metadata_parts: Vec<String>,
    source_info: Option<SourceInfo>,
    output_files: Option<Vec<(String, Vec<u8>)>>,
    manifest_content: Option<String>,
}

impl FingerprintBuilder {
    /// The content parts added so far, in the order they came.
    pub closed spec fn parts(self) -> Seq<Seq<u8>> {
        byte_views(self.content_parts@)
    }

    /// The metadata entries added so far, each `key=value`.
    pub closed spec fn metadata(self) -> Seq<Seq<char>> {
        views(self.metadata_parts@)
    }

    /// The source description, if one was set.
    pub closed spec fn source(self) -> Option<SourceInfo> {
        self.source_info
    }

    /// The tracked output files, by path in path order, if any was added.
    pub closed spec fn outputs(self) -> Option<Seq<(Seq<char>, Seq<u8>)>> {
        match self.output_files {
            Some(f) => Some(file_views(f@)),
            None => None,
        }
    }

    /// The manifest text, if one was set.
    pub closed spec fn manifest(self) -> Option<Seq<char>> {
        opt_str_view(self.manifest_content)
    }

    /// An empty builder.
    pub fn new() -> (r: Self)
        ensures
            r.parts() == Seq::<Seq<u8>>::empty(),
            r.metadata() == Seq::<Seq<char>>::empty(),
            r.source() is None,
            r.outputs() is None,
            r.manifest() is None,
    {
        let r = FingerprintBuilder {
            content_parts: Vec::new(),
            metadata_parts: Vec::new(),
            source_info: None,
            output_files: None,
            manifest_content: None,
        };
        assert(r.parts() =~= Seq::<Seq<u8>>::empty());
        assert(r.metadata() =~= Seq::<Seq<char>>::empty());
        r
    }

    /// Adds content that affects generation (a CRD, an OpenAPI document, ...).
    pub fn add_content(&mut self, content: &[u8]) -> (r: &mut Self)
        ensures
            (*r).parts() == old(self).parts().push(content@),
            (*r).metadata() == old(self).metadata(),
            (*r).source() == old(self).source(),
            (*r).outputs() == old(self).outputs(),
            (*r).manifest() == old(self).manifest(),
            *final(self) == *final(r),
    {
        let ghost p0 = self.content_parts@;
        let v = vstd::slice::slice_to_vec(content);
        self.content_parts.push(v);
        assert(byte_views(self.content_parts@) =~= byte_views(p0).push(content@));
        self
    }

    /// Adds content given as text: its UTF-8 bytes.
    pub fn add_content_str(&mut self, content: &str) -> (r: &mut Self)
        ensures
            (*r).parts() == old(self).parts().push(utf8(content@)),
            (*r).metadata() == old(self).metadata(),
            (*r).source() == old(self).source(),
            (*r).outputs() == old(self).outputs(),
            (*r).manifest() == old(self).manifest(),
            *final(self) == *final(r),
    {
        self.add_content(content.as_bytes())
    }

    /// Adds metadata that could affect generation, as `key=value`.
    pub fn add_metadata(&mut self, key: &str, value: &str) -> (r: &mut Self)
        ensures
            (*r).parts() == old(self).parts(),
            (*r).metadata() == old(self).metadata().push(key@ + seq!['='] + value@),
            (*r).source() == old(self).source(),
            (*r).outputs() == old(self).outputs(),
            (*r).manifest() == old(self).manifest(),
            *final(self) == *final(r),
    {
        let ghost m0 = self.metadata_parts@;
        let mut entry = key.to_owned();
        push_char(&mut entry, '=');
        let entry = concat(entry.as_str(), value);
        assert(entry@ =~= key@ + seq!['='] + value@);
        self.metadata_parts.push(entry);
        assert(views(self.metadata_parts@) =~= views(m0).push(key@ + seq!['='] + value@));
        self
    }

    /// Sets the source description.
    pub fn with_source_info(&mut self, source_info: SourceInfo) -> (r: &mut Self)
        ensures
            (*r).parts() == old(self).parts(),
            (*r).metadata() == old(self).metadata(),
            (*r).source() == Some(source_info),
            (*r).outputs() == old(self).outputs(),
            (*r).manifest() == old(self).manifest(),
            *final(self) == *final(r),
    {
        self.source_info = Some(source_info);
        self
    }

    /// Tracks a generated file: its content under its path, replacing an
    /// earlier entry for the same path.
    pub fn add_output_file(&mut self, relative_path: &str, content: &[u8]) -> (r: &mut Self)
        ensures
            (*r).parts() == old(self).parts(),
            (*r).metadata() == old(self).metadata(),
            (*r).source() == old(self).source(),
            (*r).outputs() == Some(
                map_insert(
                    match old(self).outputs() {
                        Some(f) => f,
                        None => Seq::empty(),
                    },
                    relative_path@,
                    content@,
                ),
            ),
            (*r).manifest() == old(self).manifest(),
            (match old(self).outputs() {
                Some(f) => keys_sorted(f),
                None => true,
            }) ==> keys_sorted((*r).outputs().unwrap()),
            *final(self) == *final(r),
    {
        let mut files = match self.output_files.take() {
            Some(f) => f,
            None => Vec::new(),
        };
        insert_file(&mut files, relative_path.to_owned(), vstd::slice::slice_to_vec(content));
        self.output_files = Some(files);
        self
    }

    /// Sets the manifest text, to track changes of the manifest.
    pub fn with_manifest_content(&mut self, manifest_content: &str) -> (r: &mut Self)
        ensures
            (*r).parts() == old(self).parts(),
            (*r).metadata() == old(self).metadata(),
            (*r).source() == old(self).source(),
            (*r).outputs() == old(self).outputs(),
            (*r).manifest() == Some(manifest_content@),
            *final(self) == *final(r),
    {
        self.manifest_content = Some(manifest_content.to_owned());
        self
    }
}

impl FingerprintBuilder {
    /// The fingerprint of what was collected, made now.
    pub fn build(&self) -> (r: ContentFingerprint)
        ensures
            r.content_hash@ == content_hash_of(self.parts()),
            r.metadata_hash@ == metadata_hash_of(self.metadata()),
            opt_str_view(r.output_hash) == output_hash_of(self.outputs()),
            opt_str_view(r.manifest_hash) == manifest_hash_of(self.manifest()),
            r.combined_hash@ == combined_hash_of(
                r.content_hash@,
                r.metadata_hash@,
                opt_str_view(r.output_hash),
                opt_str_view(r.manifest_hash),
            ),
            match self.source() {
                Some(s) => same_source(r.source_info, s),
                None => default_source(r.source_info),
            },
            r.amalgam_version@ == "0.1.0"@,
            opt_pair_views(r.generated_files) == generated_of(self.outputs()),
    {
        let content_hash = sha256_hex_of(flatten_bytes(&sort_byte_strings(&self.content_parts)).as_slice());
        let metadata_bytes = utf8_parts(&self.metadata_parts);
        let metadata_hash = sha256_hex_of(flatten_bytes(&sort_byte_strings(&metadata_bytes)).as_slice());
        let (output_hash, generated_files) = match &self.output_files {
            Some(files) => (
                Some(sha256_hex_of(files_to_bytes(files).as_slice())),
                Some(hash_files(files)),
            ),
            None => (None, None),
        };
        let manifest_hash = match &self.manifest_content {
            Some(m) => Some(sha256_hex_of(m.as_str().as_bytes())),
            None => None,
        };
        let combined_hash = combined_digest(&content_hash, &metadata_hash, &output_hash, &manifest_hash);
        let created_at = epoch_millis(system_time_since_epoch());
        let source_info = match &self.source_info {
            Some(s) => s.duplicate(),
            None => {
                let t = epoch_millis_unsigned(system_time_since_epoch());
                let mut paths: Vec<String> = Vec::new();
                paths.push(to_owned_string("unknown"));
                let mut mtimes: Vec<u64> = Vec::new();
                mtimes.push(t);
                let mut file_sizes: Vec<u64> = Vec::new();
                file_sizes.push(0);
                assert(views(paths@) =~= seq!["unknown"@]);
                assert(file_sizes@ =~= seq![0u64]);
                SourceInfo::LocalFiles { paths, mtimes, file_sizes }
            },
        };
        ContentFingerprint {
            content_hash,
            metadata_hash,
            combined_hash,
            output_hash,
            manifest_hash,
            created_at,
            source_info,
            amalgam_version: to_owned_string("0.1.0"),
            generated_files,
        }
    }
}

/// The description used when none was set: one local file named
/// `unknown`, of size 0.
pub open spec fn default_source(s: SourceInfo) -> bool {
    &&& s matches SourceInfo::LocalFiles { paths, mtimes, file_sizes }
    &&& views(paths@) == seq!["unknown"@]
    &&& mtimes@.len() == 1
    &&& file_sizes@ == seq![0u64]
}

/// The UTF-8 bytes of each string.
fn utf8_parts(v: &Vec<String>) -> (r: Vec<Vec<u8>>)
    ensures
        byte_views(r@) == utf8s(views(v@)),
{
    let mut r: Vec<Vec<u8>> = Vec::new();
    let mut i: usize = 0;
    while i < v.len()
        invariant
            i <= v.len(),
            byte_views(r@) == utf8s(views(v@)).take(i as int),
        decreases v.len() - i,
    {
        let b = v[i].as_str().as_bytes_vec();
        let ghost r0 = r@;
        r.push(b);
        assert(byte_views(r@) =~= byte_views(r0).push(utf8(v@[i as int]@)));
        assert(utf8s(views(v@)).take(i + 1) =~= utf8s(views(v@)).take(i as int).push(utf8(v@[i as int]@)));
        i = i + 1;
    }
    assert(utf8s(views(v@)).take(i as int) =~= utf8s(views(v@)));
    r
}

/// Each file's path and content, one after another.
fn files_to_bytes(files: &Vec<(String, Vec<u8>)>) -> (r: Vec<u8>)
    ensures
        r@ == files_bytes(file_views(files@)),
{
    let ghost fv = file_views(files@);
    let mut r: Vec<u8> = Vec::new();
    let mut i: usize = 0;
    while i < files.len()
        invariant
            fv == file_views(files@),
            i <= files.len(),
            r@ == files_bytes(fv.take(i as int)),
        decreases files.len() - i,
    {
        let mut p = files[i].0.as_str().as_bytes_vec();
        let mut c = files[i].1.clone();
        assert(c@ == fv[i as int].1);
        r.append(&mut p);
        r.append(&mut c);
        assert(fv.take(i + 1).drop_last() =~= fv.take(i as int));
        i = i + 1;
    }
    assert(fv.take(i as int) =~= fv);
    r
}

/// Each file's path with the digest of its content.
fn hash_files(files: &Vec<(String, Vec<u8>)>) -> (r: Vec<(String, String)>)
    ensures
        pair_views(r@) == file_hashes(file_views(files@)),
{
    let ghost fv = file_views(files@);
    let mut r: Vec<(String, String)> = Vec::new();
    let mut i: usize = 0;
    while i < files.len()
        invariant
            fv == file_views(files@),
            i <= files.len(),
            pair_views(r@) == file_hashes(fv).take(i as int),
        decreases files.len() - i,
    {
        let h = sha256_hex_of(files[i].1.as_slice());
        let ghost r0 = r@;
        r.push((files[i].0.clone(), h));
        assert(pair_views(r@) =~= pair_views(r0).push((fv[i as int].0, sha256_hex(fv[i as int].1))));
        assert(file_hashes(fv).take(i + 1) =~= file_hashes(fv).take(i as int).push(
            (fv[i as int].0, sha256_hex(fv[i as int].1)),
        ));
        i = i + 1;
    }
    assert(file_hashes(fv).take(i as int) =~= file_hashes(fv));
    r
}

/// The digest of the digests, one after another, the absent ones left out.
fn combined_digest(
    content: &String,
    metadata: &String,
    output: &Option<String>,
    manifest: &Option<String>,
) -> (r: String)
    ensures
        r@ == combined_hash_of(content@, metadata@, opt_str_view(*output), opt_str_view(*manifest)),
{
    let mut bytes = content.as_str().as_bytes_vec();
    let mut m = metadata.as_str().as_bytes_vec();
    bytes.append(&mut m);
    match output {
        Some(o) => {
            let mut b = o.as_str().as_bytes_vec();
            bytes.append(&mut b);
        },
        None => {},
    }
    match manifest {
        Some(o) => {
            let mut b = o.as_str().as_bytes_vec();
            bytes.append(&mut b);
        },
        None => {},
    }
    assert(bytes@ =~= utf8(content@) + utf8(metadata@) + opt_utf8(opt_str_view(*output)) + opt_utf8(
        opt_str_view(*manifest),
    ));
    sha256_hex_of(bytes.as_slice())
}

impl Default for FingerprintBuilder {
    fn default() -> (r: Self)
        ensures
            r.parts() == Seq::<Seq<u8>>::empty(),
            r.metadata() == Seq::<Seq<char>>::empty(),
            r.source() is None,
            r.outputs() is None,
            r.manifest() is None,
    {
        Self::new()
    }
}

/// Put `content` under `path`, keeping the files in path order: an entry for
/// that path is replaced, otherwise the new one goes before the first larger
/// path.
fn insert_file(m: &mut Vec<(String, Vec<u8>)>, path: String, content: Vec<u8>)
    ensures
        file_views(final(m)@) == map_insert(file_views(old(m)@), path@, content@),
        keys_sorted(file_views(old(m)@)) ==> keys_sorted(file_views(final(m)@)),
{
    let ghost fv = file_views(m@);
    let ghost kv = path@;
    let ghost vv = content@;
    let mut i: usize = 0;
    while i < m.len() && str_less(m[i].0.as_str(), path.as_str())
        invariant
            fv == file_views(m@),
            kv == path@,
            i <= m.len(),
            forall|j: int| 0 <= j < i ==> crate::types::str_lt(#[trigger] fv[j].0, kv),
        decreases m.len() - i,
    {
        i = i + 1;
    }
    proof {
        lemma_map_insert_at(fv, kv, vv, i as int);
        lemma_map_insert_sorted(fv, kv, vv);
    }
    if i < m.len() && str_eq(m[i].0.as_str(), path.as_str()) {
        m.remove(i);
        m.insert(i, (path, content));
        assert(file_views(m@) =~= fv.take(i as int) + seq![(kv, vv)] + fv.skip(i + 1));
    } else {
        m.insert(i, (path, content));
        assert(file_views(m@) =~= fv.take(i as int) + seq![(kv, vv)] + fv.skip(i as int));
    }
}

/// The paths of `current` whose digest `other` does not hold under the
/// same path, in the order of `current`.
pub open spec fn changed_in(
    current: Seq<(Seq<char>, Seq<char>)>,
    other: Seq<(Seq<char>, Seq<char>)>,
) -> Seq<Seq<char>>
    decreases current.len(),
{
    if current.len() == 0 {
        Seq::empty()
    } else {
        let rest = changed_in(current.drop_last(), other);
        let e = current.last();
        if map_get(other, e.0) == Some(e.1) {
            rest
        } else {
            rest.push(e.0)
        }
    }
}

/// The paths of `other` that `current` lacks, in the order of `other`.
pub open spec fn missing_in(
    other: Seq<(Seq<char>, Seq<char>)>,
    current: Seq<(Seq<char>, Seq<char>)>,
) -> Seq<Seq<char>>
    decreases other.len(),
{
    if other.len() == 0 {
        Seq::empty()
    } else {
        let rest = missing_in(other.drop_last(), current);
        if map_get(current, other.last().0) is None {
            rest.push(other.last().0)
        } else {
            rest
        }
    }
}

/// The files that changed between two per-file digest lists: nothing
/// unless both fingerprints tracked files.
pub open spec fn changed_files_of(
    current: Option<Seq<(Seq<char>, Seq<char>)>>,
    other: Option<Seq<(Seq<char>, Seq<char>)>>,
) -> Seq<Seq<char>> {
    match (current, other) {
        (Some(c), Some(o)) => changed_in(c, o) + missing_in(o, c),
        _ => Seq::empty(),
    }
}

/// Whether two optional strings are equal.
fn opt_str_eq(a: &Option<String>, b: &Option<String>) -> (r: bool)
    ensures
        r == (opt_str_view(*a) == opt_str_view(*b)),
{
    match (a, b) {
        (Some(x), Some(y)) => str_eq(x.as_str(), y.as_str()),
        (None, None) => true,
        _ => false,
    }
}

/// Where the entry under `key` stands, if anywhere.
fn pair_position(m: &Vec<(String, String)>, key: &str) -> (r: Option<usize>)
    ensures
        match r {
            Some(i) => i < m.len() && map_get(pair_views(m@), key@) == Some(pair_views(m@)[i as int].1),
            None => map_get(pair_views(m@), key@) is None,
        },
{
    let ghost pv = pair_views(m@);
    let mut i: usize = 0;
    while i < m.len()
        invariant
            pv == pair_views(m@),
            i <= m.len(),
            forall|j: int| 0 <= j < i ==> #[trigger] pv[j].0 != key@,
        decreases m.len() - i,
    {
        if str_eq(m[i].0.as_str(), key) {
            proof {
                lemma_map_get_at(pv, key@, i as int);
                assert(pv.skip(i as int)[0] == pv[i as int]);
            }
            return Some(i);
        }
        i = i + 1;
    }
    proof {
        lemma_map_get_at(pv, key@, i as int);
    }
    None
}

impl ContentFingerprint {
    /// Whether both fingerprints stand for the same content: their combined
    /// digests are equal.
    pub fn content_matches(&self, other: &ContentFingerprint) -> (r: bool)
        ensures
            r == (self.combined_hash@ == other.combined_hash@),
    {
        str_eq(self.combined_hash.as_str(), other.combined_hash.as_str())
    }

    /// Whether only metadata changed: the content and output digests are
    /// equal, and the metadata or manifest digest differs.
    pub fn metadata_changed(&self, other: &ContentFingerprint) -> (r: bool)
        ensures
            r == (self.content_hash@ == other.content_hash@ && opt_str_view(self.output_hash)
                == opt_str_view(other.output_hash) && (self.metadata_hash@ != other.metadata_hash@
                || opt_str_view(self.manifest_hash) != opt_str_view(other.manifest_hash))),
    {
        str_eq(self.content_hash.as_str(), other.content_hash.as_str()) && opt_str_eq(
            &self.output_hash,
            &other.output_hash,
        ) && (!str_eq(self.metadata_hash.as_str(), other.metadata_hash.as_str()) || !opt_str_eq(
            &self.manifest_hash,
            &other.manifest_hash,
        ))
    }

    /// Whether the content changed: the content digests differ.
    pub fn content_changed(&self, other: &ContentFingerprint) -> (r: bool)
        ensures
            r == (self.content_hash@ != other.content_hash@),
    {
        !str_eq(self.content_hash.as_str(), other.content_hash.as_str())
    }

    /// Whether the generated output changed: the output digests differ.
    pub fn output_changed(&self, other: &ContentFingerprint) -> (r: bool)
        ensures
            r == (opt_str_view(self.output_hash) != opt_str_view(other.output_hash)),
    {
        !opt_str_eq(&self.output_hash, &other.output_hash)
    }

    /// Whether the manifest changed: the manifest digests differ.
    pub fn manifest_changed(&self, other: &ContentFingerprint) -> (r: bool)
        ensures
            r == (opt_str_view(self.manifest_hash) != opt_str_view(other.manifest_hash)),
    {
        !opt_str_eq(&self.manifest_hash, &other.manifest_hash)
    }

    /// The generated files that differ between the two fingerprints: those
    /// of this one whose digest the other lacks under the same path, then
    /// those of the other that this one lacks; nothing unless both tracked
    /// files.
    pub fn changed_files(&self, other: &ContentFingerprint) -> (r: Vec<String>)
        ensures
            views(r@) == changed_files_of(
                opt_pair_views(self.generated_files),
                opt_pair_views(other.generated_files),
            ),
    {
        let mut changed: Vec<String> = Vec::new();
        match (&self.generated_files, &other.generated_files) {
            (Some(current), Some(oth)) => {
                let ghost cv = pair_views(current@);
                let ghost ov = pair_views(oth@);
                let mut i: usize = 0;
                while i < current.len()
                    invariant
                        cv == pair_views(current@),
                        ov == pair_views(oth@),
                        i <= current.len(),
                        views(changed@) == changed_in(cv.take(i as int), ov),
                    decreases current.len() - i,
                {
                    let ghost c0 = changed@;
                    assert(cv.take(i + 1).drop_last() =~= cv.take(i as int));
                    assert(cv.take(i + 1).last() == cv[i as int]);
                    match pair_position(oth, current[i].0.as_str()) {
                        Some(k) => {
                            if !str_eq(current[i].1.as_str(), oth[k].1.as_str()) {
                                changed.push(current[i].0.clone());
                                assert(views(changed@) =~= views(c0).push(cv[i as int].0));
                            }
                        },
                        None => {
                            changed.push(current[i].0.clone());
                            assert(views(changed@) =~= views(c0).push(cv[i as int].0));
                        },
                    }
                    i = i + 1;
                }
                assert(cv.take(i as int) =~= cv);
                let ghost first = views(changed@);
                let mut j: usize = 0;
                while j < oth.len()
                    invariant
                        cv == pair_views(current@),
                        ov == pair_views(oth@),
                        j <= oth.len(),
                        views(changed@) == first + missing_in(ov.take(j as int), cv),
                    decreases oth.len() - j,
                {
                    let ghost c0 = changed@;
                    assert(ov.take(j + 1).drop_last() =~= ov.take(j as int));
                    assert(ov.take(j + 1).last() == ov[j as int]);
                    match pair_position(current, oth[j].0.as_str()) {
                        Some(_) => {},
                        None => {
                            changed.push(oth[j].0.clone());
                            assert(views(changed@) =~= views(c0).push(ov[j as int].0));
                        },
                    }
                    j = j + 1;
                }
                assert(ov.take(j as int) =~= ov);
            },
            _ => {},
        }
        assert(views(changed@) =~= changed_files_of(
            opt_pair_views(self.generated_files),
            opt_pair_views(other.generated_files),
        ));
        changed
    }

    /// The first twelve characters of the combined digest, for display.
    pub fn short_hash(&self) -> (r: String)
        ensures
            r@ == if self.combined_hash@.len() < 12 {
                self.combined_hash@
            } else {
                self.combined_hash@.take(12)
            },
    {
        let cs = chars_of(self.combined_hash.as_str());
        let n = if cs.len() < 12 {
            cs.len()
        } else {
            12
        };
        let r = string_of_range(&cs, 0, n);
        assert(cs@.subrange(0, cs@.len() as int) =~= cs@);
        assert(cs@.subrange(0, 12) =~= cs@.take(12));
        r
    }
}

/// Whether `current` shows a change since `last` that calls for
/// regeneration: its content changed, or only its metadata did.
pub open spec fn changed_since(current: ContentFingerprint, last: ContentFingerprint) -> bool {
    ||| current.content_hash@ != last.content_hash@
    ||| (current.content_hash@ == last.content_hash@ && opt_str_view(current.output_hash)
        == opt_str_view(last.output_hash) && (current.metadata_hash@ != last.metadata_hash@
        || opt_str_view(current.manifest_hash) != opt_str_view(last.manifest_hash)))
}

/// A fingerprint made by a builder that was given these content parts and
/// metadata entries and nothing else of what is digested: no output files,
/// no manifest.
pub open spec fn built_from(fp: ContentFingerprint, parts: Seq<Seq<u8>>, metadata: Seq<Seq<char>>) -> bool {
    &&& fp.content_hash@ == content_hash_of(parts)
    &&& fp.metadata_hash@ == metadata_hash_of(metadata)
    &&& fp.output_hash is None
    &&& fp.manifest_hash is None
    &&& fp.combined_hash@ == combined_hash_of(fp.content_hash@, fp.metadata_hash@, None, None)
    &&& fp.generated_files is None
    &&& fp.amalgam_version@ == "0.1.0"@
}

/// A source whose content can be fingerprinted.
pub trait Fingerprintable {
    /// `fp` is a fingerprint of this source, as it would be made at some
    /// moment.
    spec fn describes(&self, fp: ContentFingerprint) -> bool;

    /// Whether a fingerprint of this source can be made.
    spec fn fingerprint_available(&self) -> bool;

    /// A fingerprint of this source, made now; made exactly when one is
    /// available.
    fn create_fingerprint(&self) -> (r: Result<ContentFingerprint, CoreError>)
        ensures
            r is Ok <==> self.fingerprint_available(),
            r matches Ok(fp) ==> self.describes(fp),
    ;

    /// Whether the source changed since `last_fingerprint` in a way that
    /// calls for regeneration: a fresh fingerprint shows changed content,
    /// or only changed metadata. It fails exactly when no fingerprint can
    /// be made, with the error of that attempt.
    fn has_changed(&self, last_fingerprint: &ContentFingerprint) -> (r: Result<bool, CoreError>)
        ensures
            r is Ok <==> self.fingerprint_available(),
            r matches Ok(b) ==> exists|fp: ContentFingerprint|
                #[trigger] self.describes(fp) && b == changed_since(fp, *last_fingerprint),
    {
        match self.create_fingerprint() {
            Ok(current) => {
                let b = current.content_changed(last_fingerprint) || current.metadata_changed(
                    last_fingerprint,
                );
                assert(self.describes(current) && b == changed_since(current, *last_fingerprint));
                Ok(b)
            },
            Err(e) => Err(e),
        }
    }
}

// ---------------------------------------------------------------------------
// The byte order, and why the digests do not depend on the order of input
// ---------------------------------------------------------------------------

/// `a` does not come after `b` byte by byte.
pub open spec fn bytes_le(a: Seq<u8>, b: Seq<u8>) -> bool {
    !bytes_lt(b, a)
}

proof fn lemma_bytes_lt_irreflexive(a: Seq<u8>)
    ensures
        !bytes_lt(a, a),
    decreases a.len(),
{
    if a.len() > 0 {
        lemma_bytes_lt_irreflexive(a.drop_first());
    }
}

proof fn lemma_bytes_lt_asymmetric(a: Seq<u8>, b: Seq<u8>)
    ensures
        bytes_lt(a, b) ==> !bytes_lt(b, a),
    decreases a.len(),
{
    if a.len() > 0 && b.len() > 0 && a[0] == b[0] {
        lemma_bytes_lt_asymmetric(a.drop_first(), b.drop_first());
    }
}

proof fn lemma_bytes_lt_connected(a: Seq<u8>, b: Seq<u8>)
    ensures
        a != b ==> bytes_lt(a, b) || bytes_lt(b, a),
    decreases a.len(),
{
    if a.len() > 0 && b.len() > 0 && a[0] == b[0] {
        lemma_bytes_lt_connected(a.drop_first(), b.drop_first());
        if a.drop_first() == b.drop_first() {
            assert(a =~= seq![a[0]] + a.drop_first());
            assert(b =~= seq![b[0]] + b.drop_first());
        }
    } else if a.len() == 0 && b.len() == 0 {
        assert(a =~= b);
    }
}

proof fn lemma_bytes_lt_transitive(a: Seq<u8>, b: Seq<u8>, c: Seq<u8>)
    ensures
        bytes_lt(a, b) && bytes_lt(b, c) ==> bytes_lt(a, c),
    decreases a.len(),
{
    if a.len() > 0 && b.len() > 0 && c.len() > 0 {
        lemma_bytes_lt_transitive(a.drop_first(), b.drop_first(), c.drop_first());
    }
}

/// `bytes_le` is a total order.
proof fn lemma_bytes_le_total()
    ensures
        vstd::relations::total_ordering(|a: Seq<u8>, b: Seq<u8>| bytes_le(a, b)),
{
    let le = |a: Seq<u8>, b: Seq<u8>| bytes_le(a, b);
    assert forall|a: Seq<u8>| #[trigger] le(a, a) by {
        lemma_bytes_lt_irreflexive(a);
    }
    assert forall|a: Seq<u8>, b: Seq<u8>| #[trigger] le(a, b) && #[trigger] le(b, a) implies a == b by {
        lemma_bytes_lt_connected(a, b);
    }
    assert forall|a: Seq<u8>, b: Seq<u8>, c: Seq<u8>|
        #[trigger] le(a, b) && #[trigger] le(b, c) implies le(a, c) by {
        lemma_bytes_lt_connected(a, b);
        lemma_bytes_lt_connected(b, c);
        lemma_bytes_lt_transitive(c, a, b);
        lemma_bytes_lt_transitive(b, c, a);
    }
    assert forall|a: Seq<u8>, b: Seq<u8>| #[trigger] le(a, b) || #[trigger] le(b, a) by {
        lemma_bytes_lt_asymmetric(a, b);
    }
}

/// Where `insert_pos` puts `x`: after the entries it does not come before,
/// at the first one it does.
proof fn lemma_insert_pos(s: Seq<Seq<u8>>, x: Seq<u8>)
    ensures
        0 <= insert_pos(s, x) <= s.len(),
        forall|j: int| 0 <= j < insert_pos(s, x) ==> !bytes_lt(x, #[trigger] s[j]),
        insert_pos(s, x) < s.len() ==> bytes_lt(x, s[insert_pos(s, x)]),
    decreases s.len(),
{
    if s.len() > 0 && !bytes_lt(x, s[0]) {
        lemma_insert_pos(s.drop_first(), x);
        assert forall|j: int| 0 <= j < insert_pos(s, x) implies !bytes_lt(x, #[trigger] s[j]) by {
            if j > 0 {
                assert(s[j] == s.drop_first()[j - 1]);
            }
        }
    }
}

/// `sort_bytes` gives the parts in order, and the same parts.
proof fn lemma_sort_bytes(parts: Seq<Seq<u8>>)
    ensures
        vstd::relations::sorted_by(sort_bytes(parts), |a: Seq<u8>, b: Seq<u8>| bytes_le(a, b)),
        sort_bytes(parts).to_multiset() == parts.to_multiset(),
    decreases parts.len(),
{
    broadcast use vstd::seq_lib::group_to_multiset_ensures;
    let le = |a: Seq<u8>, b: Seq<u8>| bytes_le(a, b);
    if parts.len() == 0 {
        assert(sort_bytes(parts) =~= Seq::<Seq<u8>>::empty());
    } else {
        let rest = parts.drop_last();
        let x = parts.last();
        let s = sort_bytes(rest);
        lemma_sort_bytes(rest);
        lemma_insert_pos(s, x);
        let k = insert_pos(s, x);
        let t = s.insert(k, x);
        assert(sort_bytes(parts) == t);
        assert forall|i: int, j: int| 0 <= i < j < t.len() implies #[trigger] le(t[i], t[j]) by {
            if j < k {
                assert(le(s[i], s[j]));
            } else if j == k {
                assert(!bytes_lt(x, s[i]));
            } else if i < k {
                assert(le(s[i], s[j - 1]));
            } else if i == k {
                lemma_bytes_lt_transitive(s[j - 1], x, s[k]);
                if k < j - 1 {
                    assert(le(s[k], s[j - 1]));
                } else {
                    lemma_bytes_lt_irreflexive(s[k]);
                }
            } else {
                assert(le(s[i - 1], s[j - 1]));
            }
        }
        assert(t.remove(k) =~= s);
        assert(t[k] == x);
        assert(t.remove(k).to_multiset() == t.to_multiset().remove(x));
        assert(parts =~= rest.push(x));
        assert(parts.to_multiset() == rest.to_multiset().insert(x));
        assert(t.to_multiset() =~= s.to_multiset().insert(x)) by {
            broadcast use vstd::multiset::group_multiset_axioms;
            assert(t.to_multiset().count(x) > 0) by {
                assert(t.contains(x));
            }
        }
    }
}

/// Parts in any order are sorted alike.
proof fn lemma_sort_bytes_permutation(p: Seq<Seq<u8>>, q: Seq<Seq<u8>>)
    requires
        p.to_multiset() == q.to_multiset(),
    ensures
        sort_bytes(p) == sort_bytes(q),
{
    lemma_sort_bytes(p);
    lemma_sort_bytes(q);
    lemma_bytes_le_total();
    vstd::seq_lib::lemma_sorted_unique(
        sort_bytes(p),
        sort_bytes(q),
        |a: Seq<u8>, b: Seq<u8>| bytes_le(a, b),
    );
}

/// The content digest does not depend on the order in which the parts were
/// added: parts that are a reordering of each other have the same digest.
pub proof fn law_content_hash_ignores_order(p: Seq<Seq<u8>>, q: Seq<Seq<u8>>)
    requires
        p.to_multiset() == q.to_multiset(),
    ensures
        content_hash_of(p) == content_hash_of(q),
{
    lemma_sort_bytes_permutation(p, q);
}

/// Reordering a sequence reorders its image.
proof fn lemma_map_values_permutation<A, B>(p: Seq<A>, q: Seq<A>, f: spec_fn(A) -> B)
    requires
        p.to_multiset() == q.to_multiset(),
    ensures
        p.map_values(f).to_multiset() == q.map_values(f).to_multiset(),
    decreases p.len(),
{
    broadcast use vstd::seq_lib::group_to_multiset_ensures;
    broadcast use vstd::multiset::group_multiset_axioms;

    if p.len() == 0 {
        assert(q.len() == 0) by {
            assert(p.len() == p.to_multiset().len());
            assert(q.len() == q.to_multiset().len());
        }
        assert(p.map_values(f) =~= q.map_values(f));
    } else {
        let x = p.last();
        let p1 = p.drop_last();
        assert(p =~= p1.push(x));
        assert(p.to_multiset().count(x) > 0) by {
            assert(p.contains(x)) by {
                assert(p[p.len() - 1] == x);
            }
        }
        assert(q.contains(x));
        let i = choose|i: int| 0 <= i < q.len() && q[i] == x;
        let q1 = q.remove(i);
        assert(q1.to_multiset() == q.to_multiset().remove(x));
        assert(p1.to_multiset() =~= p.to_multiset().remove(x));
        lemma_map_values_permutation(p1, q1, f);
        let qm = q.map_values(f);
        assert(p.map_values(f) =~= p1.map_values(f).push(f(x)));
        assert(q1.map_values(f) =~= qm.remove(i));
        assert(qm[i] == f(x));
        assert(qm.remove(i).to_multiset() == qm.to_multiset().remove(f(x)));
        assert(qm.to_multiset().count(f(x)) > 0) by {
            assert(qm.contains(f(x)));
        }
        assert(p.map_values(f).to_multiset() =~= qm.to_multiset());
    }
}

/// The metadata digest does not depend on the order in which the entries
/// were added: entries that are a reordering of each other have the same
/// digest.
pub proof fn law_metadata_hash_ignores_order(m1: Seq<Seq<char>>, m2: Seq<Seq<char>>)
    requires
        m1.to_multiset() == m2.to_multiset(),
    ensures
        metadata_hash_of(m1) == metadata_hash_of(m2),
{
    lemma_map_values_permutation(m1, m2, |t: Seq<char>| utf8(t));
    lemma_sort_bytes_permutation(utf8s(m1), utf8s(m2));
}

/// Builders given the same parts and metadata entries, each in any order,
/// and the same output files and manifest, make fingerprints whose
/// combined digests match.
pub proof fn law_fingerprint_ignores_order(
    p1: Seq<Seq<u8>>,
    p2: Seq<Seq<u8>>,
    m1: Seq<Seq<char>>,
    m2: Seq<Seq<char>>,
    outputs: Option<Seq<(Seq<char>, Seq<u8>)>>,
    manifest: Option<Seq<char>>,
)
    requires
        p1.to_multiset() == p2.to_multiset(),
        m1.to_multiset() == m2.to_multiset(),
    ensures
        combined_hash_of(
            content_hash_of(p1),
            metadata_hash_of(m1),
            output_hash_of(outputs),
            manifest_hash_of(manifest),
        ) == combined_hash_of(
            content_hash_of(p2),
            metadata_hash_of(m2),
            output_hash_of(outputs),
            manifest_hash_of(manifest),
        ),
{
    law_content_hash_ignores_order(p1, p2);
    law_metadata_hash_ignores_order(m1, m2);
}

} // verus!
