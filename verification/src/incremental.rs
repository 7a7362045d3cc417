//! Sources whose content decides whether a package must be regenerated,
//! and the kinds of change detected.

use vstd::prelude::*;
use crate::fingerprint::{
    built_from, changed_since, flatten, same_source, sha256_hex, sha256_hex_of, utf8, utf8s,
    ContentFingerprint, FingerprintBuilder, Fingerprintable, SourceInfo,
};
use crate::pipeline::CoreError;
use crate::text::{clone_strings, decimal, decimal_spec, to_owned_string, views};
use crate::types::opt_str_view;
use vstd::string::StrSliceExecFns;

verus! {

/// Content fetched from URLs.
#[derive(Debug, Clone)]
pub struct UrlSource {
    pub base_url: String,
    pub urls: Vec<String>,
    pub contents: Vec<String>,
}

/// CRDs read from a live cluster.
#[derive(Debug, Clone)]
pub struct K8sClusterSource {
    pub server_version: String,
    pub api_version: String,
    pub crd_specs: Vec<String>,
}

/// The core Kubernetes OpenAPI specification.
#[derive(Debug, Clone)]
pub struct K8sCoreSource {
    pub version: String,
    pub openapi_spec: String,
    pub spec_url: String,
}

/// Local files.
#[derive(Debug, Clone)]
pub struct LocalFilesSource {
    pub paths: Vec<String>,
    pub contents: Vec<String>,
    /// Each path's modification time, in milliseconds since the Unix epoch
    /// (0 where it could not be read).
    pub mtimes: Vec<u64>,
    /// Each path's size in bytes (0 where it could not be read).
    pub file_sizes: Vec<u64>,
}

/// Files of a Git repository at a commit.
#[derive(Debug, Clone)]
pub struct GitRepoSource {
    pub url: String,
    pub commit: String,
    pub paths: Vec<String>,
    pub contents: Vec<String>,
}

/// The kind of change detected for a package.
#[derive(Debug, Clone, Copy, PartialEq, Eq, Structural)]
pub enum ChangeType {
    /// Nothing changed.
    NoChange,
    /// Only metadata (versions, timestamps) changed.
    MetadataOnly,
    /// Source content changed: regenerate.
    ContentChanged,
    /// Generated output was modified by hand.
    OutputChanged,
    /// The manifest changed.
    ManifestChanged,
    /// No earlier fingerprint: first generation.
    FirstGeneration,
}

/// Adds each text as content, in order.
fn add_texts(builder: &mut FingerprintBuilder, texts: &Vec<String>)
    ensures
        final(builder).parts() == old(builder).parts() + utf8s(views(texts@)),
        final(builder).metadata() == old(builder).metadata(),
        final(builder).source() == old(builder).source(),
        final(builder).outputs() == old(builder).outputs(),
        final(builder).manifest() == old(builder).manifest(),
{
    let ghost p0 = builder.parts();
    let mut i: usize = 0;
    while i < texts.len()
        invariant
            i <= texts.len(),
            builder.parts() == p0 + utf8s(views(texts@)).take(i as int),
            builder.metadata() == old(builder).metadata(),
            builder.source() == old(builder).source(),
            builder.outputs() == old(builder).outputs(),
            builder.manifest() == old(builder).manifest(),
        decreases texts.len() - i,
    {
        builder.add_content_str(texts[i].as_str());
        assert(utf8s(views(texts@)).take(i + 1) =~= utf8s(views(texts@)).take(i as int).push(
            utf8(texts@[i as int]@),
        ));
        i = i + 1;
    }
    assert(utf8s(views(texts@)).take(i as int) =~= utf8s(views(texts@)));
}

/// `key=value`.
pub open spec fn entry(key: Seq<char>, value: Seq<char>) -> Seq<char> {
    key + seq!['='] + value
}

/// Each text's UTF-8 bytes, one after another.
fn texts_bytes(texts: &Vec<String>) -> (r: Vec<u8>)
    ensures
        r@ == flatten(utf8s(views(texts@))),
{
    let ghost u = utf8s(views(texts@));
    let mut r: Vec<u8> = Vec::new();
    let mut i: usize = 0;
    while i < texts.len()
        invariant
            u == utf8s(views(texts@)),
            i <= texts.len(),
            r@ == flatten(u.take(i as int)),
        decreases texts.len() - i,
    {
        let mut b = texts[i].as_str().as_bytes_vec();
        r.append(&mut b);
        assert(u.take(i + 1).drop_last() =~= u.take(i as int));
        i = i + 1;
    }
    assert(u.take(i as int) =~= u);
    r
}

/// `n` copies of `None`.
fn nones_str(n: usize) -> (r: Vec<Option<String>>)
    ensures
        r@.len() == n,
        forall|i: int| 0 <= i < n ==> r@[i] is None,
{
    let mut r: Vec<Option<String>> = Vec::new();
    while r.len() < n
        invariant
            r@.len() <= n,
            forall|i: int| 0 <= i < r@.len() ==> r@[i] is None,
        decreases n - r@.len(),
    {
        r.push(None);
    }
    r
}

/// `n` copies of `None`.
fn nones_time(n: usize) -> (r: Vec<Option<i64>>)
    ensures
        r@.len() == n,
        forall|i: int| 0 <= i < n ==> r@[i] is None,
{
    let mut r: Vec<Option<i64>> = Vec::new();
    while r.len() < n
        invariant
            r@.len() <= n,
            forall|i: int| 0 <= i < r@.len() ==> r@[i] is None,
        decreases n - r@.len(),
    {
        r.push(None);
    }
    r
}

impl Fingerprintable for UrlSource {
    /// The contents are the content; the base URL and the number of URLs
    /// are the metadata; the source is the URL collection, with no ETags or
    /// modification times yet.
    open spec fn describes(&self, fp: ContentFingerprint) -> bool {
        &&& built_from(
            fp,
            utf8s(views(self.contents@)),
            seq![entry("base_url"@, self.base_url@), entry("url_count"@, decimal_spec(self.urls@.len()))],
        )
        &&& fp.source_info matches SourceInfo::UrlCollection { base_url, urls, etags, last_modified }
        &&& base_url@ == self.base_url@
        &&& views(urls@) == views(self.urls@)
        &&& etags@.len() == self.urls@.len()
        &&& (forall|i: int| 0 <= i < etags@.len() ==> etags@[i] is None)
        &&& last_modified@.len() == self.urls@.len()
        &&& (forall|i: int| 0 <= i < last_modified@.len() ==> last_modified@[i] is None)
    }

    /// A fingerprint can always be made.
    open spec fn fingerprint_available(&self) -> bool {
        true
    }

    fn create_fingerprint(&self) -> (r: Result<ContentFingerprint, CoreError>)
        ensures
            r is Ok,
    {
        let mut builder = FingerprintBuilder::new();
        add_texts(&mut builder, &self.contents);
        builder.add_metadata("base_url", self.base_url.as_str());
        let count = decimal(self.urls.len());
        builder.add_metadata("url_count", count.as_str());
        let etags = nones_str(self.urls.len());
        let last_modified = nones_time(self.urls.len());
        let ghost e0 = etags@;
        let ghost l0 = last_modified@;
        let source_info = SourceInfo::UrlCollection {
            base_url: self.base_url.clone(),
            urls: clone_strings(&self.urls),
            etags,
            last_modified,
        };
        let ghost si = source_info;
        builder.with_source_info(source_info);
        assert(builder.parts() =~= utf8s(views(self.contents@)));
        assert(builder.metadata() =~= seq![
            entry("base_url"@, self.base_url@),
            entry("url_count"@, decimal_spec(self.urls@.len())),
        ]);
        let fp = builder.build();
        proof {
            assert(builder.source() == Some(si));
            assert(same_source(fp.source_info, si));
            assert(si->etags@ == e0);
            let e = fp.source_info->etags@;
            assert(crate::fingerprint::opt_views(e) == crate::fingerprint::opt_views(e0));
            assert(e.len() == e0.len()) by {
                assert(crate::fingerprint::opt_views(e).len() == e.len());
                assert(crate::fingerprint::opt_views(e0).len() == e0.len());
            }
            assert forall|i: int| 0 <= i < e.len() implies e[i] is None by {
                assert(crate::fingerprint::opt_views(e)[i] == opt_str_view(e[i]));
                assert(crate::fingerprint::opt_views(e0)[i] == opt_str_view(e0[i]));
                assert(e0[i] is None);
            }
        }
        Ok(fp)
    }
}

impl Fingerprintable for K8sClusterSource {
    /// The CRD specifications are the content; the server version, API
    /// version and number of CRDs are the metadata; the source is the
    /// cluster, with the digest of all specifications one after another.
    open spec fn describes(&self, fp: ContentFingerprint) -> bool {
        &&& built_from(
            fp,
            utf8s(views(self.crd_specs@)),
            seq![
                entry("server_version"@, self.server_version@),
                entry("api_version"@, self.api_version@),
                entry("crd_count"@, decimal_spec(self.crd_specs@.len())),
            ],
        )
        &&& fp.source_info matches SourceInfo::K8sCluster { version, server_version, api_resources_hash }
        &&& version@ == self.api_version@
        &&& server_version@ == self.server_version@
        &&& api_resources_hash@ == sha256_hex(flatten(utf8s(views(self.crd_specs@))))
    }

    /// A fingerprint can always be made.
    open spec fn fingerprint_available(&self) -> bool {
        true
    }

    fn create_fingerprint(&self) -> (r: Result<ContentFingerprint, CoreError>)
        ensures
            r is Ok,
    {
        let mut builder = FingerprintBuilder::new();
        add_texts(&mut builder, &self.crd_specs);
        builder.add_metadata("server_version", self.server_version.as_str());
        builder.add_metadata("api_version", self.api_version.as_str());
        let count = decimal(self.crd_specs.len());
        builder.add_metadata("crd_count", count.as_str());
        let api_resources_hash = sha256_hex_of(texts_bytes(&self.crd_specs).as_slice());
        let source_info = SourceInfo::K8sCluster {
            version: self.api_version.clone(),
            server_version: self.server_version.clone(),
            api_resources_hash,
        };
        builder.with_source_info(source_info);
        assert(builder.parts() =~= utf8s(views(self.crd_specs@)));
        assert(builder.metadata() =~= seq![
            entry("server_version"@, self.server_version@),
            entry("api_version"@, self.api_version@),
            entry("crd_count"@, decimal_spec(self.crd_specs@.len())),
        ]);
        Ok(builder.build())
    }
}

impl Fingerprintable for K8sCoreSource {
    /// The OpenAPI specification is the content; the Kubernetes version and
    /// the specification's URL are the metadata; the source is the core
    /// types, with the digest of the specification.
    open spec fn describes(&self, fp: ContentFingerprint) -> bool {
        &&& built_from(
            fp,
            seq![utf8(self.openapi_spec@)],
            seq![entry("k8s_version"@, self.version@), entry("spec_url"@, self.spec_url@)],
        )
        &&& fp.source_info matches SourceInfo::K8sCore { version, openapi_hash, spec_url }
        &&& version@ == self.version@
        &&& openapi_hash@ == sha256_hex(utf8(self.openapi_spec@))
        &&& spec_url@ == self.spec_url@
    }

    /// A fingerprint can always be made.
    open spec fn fingerprint_available(&self) -> bool {
        true
    }

    fn create_fingerprint(&self) -> (r: Result<ContentFingerprint, CoreError>)
        ensures
            r is Ok,
    {
        let mut builder = FingerprintBuilder::new();
        builder.add_content_str(self.openapi_spec.as_str());
        builder.add_metadata("k8s_version", self.version.as_str());
        builder.add_metadata("spec_url", self.spec_url.as_str());
        let openapi_hash = sha256_hex_of(self.openapi_spec.as_str().as_bytes());
        let source_info = SourceInfo::K8sCore {
            version: self.version.clone(),
            openapi_hash,
            spec_url: self.spec_url.clone(),
        };
        builder.with_source_info(source_info);
        assert(builder.parts() =~= seq![utf8(self.openapi_spec@)]);
        assert(builder.metadata() =~= seq![
            entry("k8s_version"@, self.version@),
            entry("spec_url"@, self.spec_url@),
        ]);
        Ok(builder.build())
    }
}

/// `file_path=p` for each path, in order.
pub open spec fn path_entries(paths: Seq<Seq<char>>) -> Seq<Seq<char>> {
    paths.map_values(|p: Seq<char>| entry("file_path"@, p))
}

impl Fingerprintable for LocalFilesSource {
    /// The file contents are the content; the number of files and each
    /// path are the metadata; the source is the local files, with their
    /// modification times and sizes.
    open spec fn describes(&self, fp: ContentFingerprint) -> bool {
        &&& built_from(
            fp,
            utf8s(views(self.contents@)),
            seq![entry("file_count"@, decimal_spec(self.paths@.len()))] + path_entries(
                views(self.paths@),
            ),
        )
        &&& fp.source_info matches SourceInfo::LocalFiles { paths, mtimes, file_sizes }
        &&& views(paths@) == views(self.paths@)
        &&& mtimes@ == self.mtimes@
        &&& file_sizes@ == self.file_sizes@
    }

    /// A fingerprint can always be made.
    open spec fn fingerprint_available(&self) -> bool {
        true
    }

    fn create_fingerprint(&self) -> (r: Result<ContentFingerprint, CoreError>)
        ensures
            r is Ok,
    {
        let mut builder = FingerprintBuilder::new();
        add_texts(&mut builder, &self.contents);
        let count = decimal(self.paths.len());
        builder.add_metadata("file_count", count.as_str());
        let ghost m0 = builder.metadata();
        let ghost pv = views(self.paths@);
        let mut i: usize = 0;
        while i < self.paths.len()
            invariant
                i <= self.paths.len(),
                pv == views(self.paths@),
                builder.parts() == utf8s(views(self.contents@)),
                builder.metadata() == m0 + path_entries(pv.take(i as int)),
                builder.source() is None,
                builder.outputs() is None,
                builder.manifest() is None,
            decreases self.paths.len() - i,
        {
            builder.add_metadata("file_path", self.paths[i].as_str());
            assert(path_entries(pv.take(i + 1)) =~= path_entries(pv.take(i as int)).push(
                entry("file_path"@, pv[i as int]),
            ));
            i = i + 1;
        }
        assert(pv.take(i as int) =~= pv);
        let mut mtimes: Vec<u64> = Vec::new();
        let mut k: usize = 0;
        while k < self.mtimes.len()
            invariant
                k <= self.mtimes.len(),
                mtimes@ == self.mtimes@.take(k as int),
            decreases self.mtimes.len() - k,
        {
            mtimes.push(self.mtimes[k]);
            assert(self.mtimes@.take(k + 1) =~= self.mtimes@.take(k as int).push(self.mtimes@[k as int]));
            k = k + 1;
        }
        assert(self.mtimes@.take(k as int) =~= self.mtimes@);
        let mut file_sizes: Vec<u64> = Vec::new();
        let mut k: usize = 0;
        while k < self.file_sizes.len()
            invariant
                k <= self.file_sizes.len(),
                file_sizes@ == self.file_sizes@.take(k as int),
            decreases self.file_sizes.len() - k,
        {
            file_sizes.push(self.file_sizes[k]);
            assert(self.file_sizes@.take(k + 1) =~= self.file_sizes@.take(k as int).push(
                self.file_sizes@[k as int],
            ));
            k = k + 1;
        }
        assert(self.file_sizes@.take(k as int) =~= self.file_sizes@);
        let source_info = SourceInfo::LocalFiles { paths: clone_strings(&self.paths), mtimes, file_sizes };
        builder.with_source_info(source_info);
        assert(builder.parts() =~= utf8s(views(self.contents@)));
        Ok(builder.build())
    }
}

impl Fingerprintable for GitRepoSource {
    /// The file contents are the content; the repository URL, the commit and
    /// the number of paths are the metadata; the source is the repository,
    /// with no HTTP metadata.
    open spec fn describes(&self, fp: ContentFingerprint) -> bool {
        &&& built_from(
            fp,
            utf8s(views(self.contents@)),
            seq![
                entry("git_url"@, self.url@),
                entry("git_commit"@, self.commit@),
                entry("path_count"@, decimal_spec(self.paths@.len())),
            ],
        )
        &&& fp.source_info matches SourceInfo::GitRepo { url, commit, paths, http_metadata }
        &&& url@ == self.url@
        &&& commit@ == self.commit@
        &&& views(paths@) == views(self.paths@)
        &&& http_metadata is None
    }

    /// A fingerprint can always be made.
    open spec fn fingerprint_available(&self) -> bool {
        true
    }

    fn create_fingerprint(&self) -> (r: Result<ContentFingerprint, CoreError>)
        ensures
            r is Ok,
    {
        let mut builder = FingerprintBuilder::new();
        add_texts(&mut builder, &self.contents);
        builder.add_metadata("git_url", self.url.as_str());
        builder.add_metadata("git_commit", self.commit.as_str());
        let count = decimal(self.paths.len());
        builder.add_metadata("path_count", count.as_str());
        let source_info = SourceInfo::GitRepo {
            url: self.url.clone(),
            commit: self.commit.clone(),
            paths: clone_strings(&self.paths),
            http_metadata: None,
        };
        builder.with_source_info(source_info);
        assert(builder.parts() =~= utf8s(views(self.contents@)));
        assert(builder.metadata() =~= seq![
            entry("git_url"@, self.url@),
            entry("git_commit"@, self.commit@),
            entry("path_count"@, decimal_spec(self.paths@.len())),
        ]);
        Ok(builder.build())
    }
}

/// The kind of change between a fresh fingerprint and the last saved one,
/// checked in order: none saved, same combined digest, manifest, content,
/// output, metadata, and otherwise content.
pub open spec fn change_type_spec(current: ContentFingerprint, last: Option<ContentFingerprint>) -> ChangeType {
    match last {
        None => ChangeType::FirstGeneration,
        Some(l) => if current.combined_hash@ == l.combined_hash@ {
            ChangeType::NoChange
        } else if opt_str_view(current.manifest_hash) != opt_str_view(l.manifest_hash) {
            ChangeType::ManifestChanged
        } else if current.content_hash@ != l.content_hash@ {
            ChangeType::ContentChanged
        } else if opt_str_view(current.output_hash) != opt_str_view(l.output_hash) {
            ChangeType::OutputChanged
        } else if current.metadata_hash@ != l.metadata_hash@ {
            ChangeType::MetadataOnly
        } else {
            ChangeType::ContentChanged
        },
    }
}

/// The kind of change between a fresh fingerprint and the last saved one,
/// if any was saved.
pub fn change_type(current: &ContentFingerprint, last: Option<&ContentFingerprint>) -> (r: ChangeType)
    ensures
        r == change_type_spec(
            *current,
            match last {
                Some(l) => Some(*l),
                None => None,
            },
        ),
{
    match last {
        None => ChangeType::FirstGeneration,
        Some(l) => {
            if current.content_matches(l) {
                ChangeType::NoChange
            } else if current.manifest_changed(l) {
                ChangeType::ManifestChanged
            } else if current.content_changed(l) {
                ChangeType::ContentChanged
            } else if current.output_changed(l) {
                ChangeType::OutputChanged
            } else if current.metadata_changed(l) {
                ChangeType::MetadataOnly
            } else {
                ChangeType::ContentChanged
            }
        },
    }
}

/// Whether a package must be regenerated: nothing was saved, or the source
/// changed since the saved fingerprint (its content, or only its metadata).
pub fn needs_regeneration_from(source: &dyn Fingerprintable, last: Option<&ContentFingerprint>) -> (r: Result<bool, CoreError>)
    ensures
        last is None ==> r == Ok::<bool, CoreError>(true),
        forall|b: bool, l: &ContentFingerprint|
            r == Ok::<bool, CoreError>(b) && last == Some(l) ==> exists|fp: ContentFingerprint|
                #[trigger] source.describes(fp) && b == changed_since(fp, *l),
{
    match last {
        None => Ok(true),
        Some(l) => source.has_changed(l),
    }
}

} // verus!
