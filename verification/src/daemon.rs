//! Configuration and status of the watching daemon, and which changed
//! files it ignores.

use vstd::prelude::*;
use crate::module_registry::components;
use crate::text::{chars_of, contains_str, str_eq, string_of_range, to_owned_string, views};

verus! {

broadcast use vstd::string::group_string_axioms;

/// Configuration of the production daemon.
#[derive(Debug, Clone)]
pub struct DaemonConfig {
    /// Paths to watch.
    pub watch_paths: Vec<String>,
    /// Output directory for generated files.
    pub output_dir: String,
    /// Health check server port.
    pub health_port: u16,
    /// Watch Kubernetes CRDs.
    pub enable_k8s: bool,
    /// Namespace to watch (all when absent).
    pub k8s_namespace: Option<String>,
    /// File extensions to watch.
    pub file_extensions: Vec<String>,
    /// Debounce duration in milliseconds.
    pub debounce_ms: u64,
    /// Cache size limit.
    pub cache_size: usize,
    /// Incremental compilation.
    pub incremental: bool,
    /// Log level.
    pub log_level: String,
}

impl Default for DaemonConfig {
    /// Watch `.` into `./generated`, health on port 8080, YAML and JSON
    /// files, 500 ms debounce, 1000 cache entries, incremental, `info`.
    fn default() -> (r: Self)
        ensures
            views(r.watch_paths@) == seq!["."@],
            r.output_dir@ == "./generated"@,
            r.health_port == 8080,
            !r.enable_k8s,
            r.k8s_namespace is None,
            views(r.file_extensions@) == seq!["yaml"@, "yml"@, "json"@],
            r.debounce_ms == 500,
            r.cache_size == 1000,
            r.incremental,
            r.log_level@ == "info"@,
    {
        let mut watch_paths: Vec<String> = Vec::new();
        watch_paths.push(to_owned_string("."));
        let mut file_extensions: Vec<String> = Vec::new();
        file_extensions.push(to_owned_string("yaml"));
        file_extensions.push(to_owned_string("yml"));
        file_extensions.push(to_owned_string("json"));
        let r = DaemonConfig {
            watch_paths,
            output_dir: to_owned_string("./generated"),
            health_port: 8080,
            enable_k8s: false,
            k8s_namespace: None,
            file_extensions,
            debounce_ms: 500,
            cache_size: 1000,
            incremental: true,
            log_level: to_owned_string("info"),
        };
        assert(views(r.watch_paths@) =~= seq!["."@]);
        assert(views(r.file_extensions@) =~= seq!["yaml"@, "yml"@, "json"@]);
        r
    }
}

/// Health status of the daemon.
#[derive(Debug, Clone)]
pub struct HealthStatus {
    pub status: String,
    pub uptime_seconds: u64,
    pub files_watched: usize,
    pub compilations_total: u64,
    pub compilations_failed: u64,
    pub last_compilation: Option<String>,
    pub version: String,
}

/// Readiness status of the daemon.
#[derive(Debug, Clone)]
pub struct ReadinessStatus {
    pub ready: bool,
    pub initialized: bool,
    pub watching: bool,
    pub cache_ready: bool,
}

/// Kinds of file change.
#[derive(Debug, Clone, PartialEq)]
pub enum FileChangeKind {
    Created,
    Modified,
    Removed,
    Renamed { from: String, to: String },
}

/// Configuration of the file watcher.
#[derive(Debug, Clone)]
pub struct WatcherConfig {
    /// Debounce duration in milliseconds.
    pub debounce_ms: u64,
    /// File extensions to watch.
    pub extensions: Vec<String>,
    /// Directory names to ignore.
    pub ignore_dirs: Vec<String>,
    /// Maximum events to buffer.
    pub buffer_size: usize,
}

impl Default for WatcherConfig {
    /// 500 ms debounce; YAML, JSON and TOML files; version-control, build
    /// and cache directories ignored; 1000 buffered events.
    fn default() -> (r: Self)
        ensures
            r.debounce_ms == 500,
            views(r.extensions@) == seq!["yaml"@, "yml"@, "json"@, "toml"@],
            views(r.ignore_dirs@) == seq![".git"@, "target"@, "node_modules"@, ".cache"@],
            r.buffer_size == 1000,
    {
        let mut extensions: Vec<String> = Vec::new();
        extensions.push(to_owned_string("yaml"));
        extensions.push(to_owned_string("yml"));
        extensions.push(to_owned_string("json"));
        extensions.push(to_owned_string("toml"));
        let mut ignore_dirs: Vec<String> = Vec::new();
        ignore_dirs.push(to_owned_string(".git"));
        ignore_dirs.push(to_owned_string("target"));
        ignore_dirs.push(to_owned_string("node_modules"));
        ignore_dirs.push(to_owned_string(".cache"));
        let r = WatcherConfig { debounce_ms: 500, extensions, ignore_dirs, buffer_size: 1000 };
        assert(views(r.extensions@) =~= seq!["yaml"@, "yml"@, "json"@, "toml"@]);
        assert(views(r.ignore_dirs@) =~= seq![".git"@, "target"@, "node_modules"@, ".cache"@]);
        r
    }
}

/// The extension of a file name: the text after its last dot, none when
/// it has no dot or its only dot leads the name.
pub open spec fn file_extension(name: Seq<char>) -> Option<Seq<char>> {
    match crate::text::rposition(
        name.map_values(|c: char| seq![c]),
        |p: Seq<char>| p == seq!['.'],
    ) {
        Some(i) => if i == 0 {
            None
        } else {
            Some(name.skip(i + 1))
        },
        None => None,
    }
}

/// The extension of a path: that of its last component (none when the
/// path ends in `..` or has no component).
pub open spec fn path_extension(path: Seq<char>) -> Option<Seq<char>> {
    let cs = components(path);
    if cs.len() == 0 || cs.last() == ".."@ {
        None
    } else {
        file_extension(cs.last())
    }
}

/// A changed path is ignored when one of its components is an ignored
/// directory, or its extension is missing or not watched.
pub open spec fn should_ignore_spec(path: Seq<char>, extensions: Seq<Seq<char>>, ignore_dirs: Seq<Seq<char>>) -> bool {
    (exists|i: int| 0 <= i < ignore_dirs.len() && components(path).contains(#[trigger] ignore_dirs[i]))
        || match path_extension(path) {
        Some(e) => !extensions.contains(e),
        None => true,
    }
}

/// The position of the last `.` in `cs`.
fn last_dot(cs: &Vec<char>) -> (r: Option<usize>)
    ensures
        match r {
            Some(i) => crate::text::rposition(cs@.map_values(|c: char| seq![c]), |p: Seq<char>| p == seq!['.'])
                == Some(i as int),
            None => crate::text::rposition(cs@.map_values(|c: char| seq![c]), |p: Seq<char>| p == seq!['.']) is None,
        },
{
    let ghost ps = cs@.map_values(|c: char| seq![c]);
    let ghost pred = |p: Seq<char>| p == seq!['.'];
    let mut j: usize = cs.len();
    assert(ps.take(j as int) =~= ps);
    while j > 0
        invariant
            ps == cs@.map_values(|c: char| seq![c]),
            pred == (|p: Seq<char>| p == seq!['.']),
            j <= cs.len(),
            crate::text::rposition(ps, pred) == crate::text::rposition(ps.take(j as int), pred),
        decreases j,
    {
        assert(ps.take(j as int).last() == seq![cs@[j - 1]]);
        if cs[j - 1] == '.' {
            assert(pred(ps.take(j as int).last()));
            return Some(j - 1);
        }
        assert(!pred(ps.take(j as int).last())) by {
            if seq![cs@[j - 1]] == seq!['.'] {
                assert(seq![cs@[j - 1]][0] == '.');
            }
        }
        assert(ps.take(j as int).drop_last() =~= ps.take(j - 1));
        j = j - 1;
    }
    None
}

/// Whether the watcher ignores a changed path.
pub fn should_ignore(path: &str, config: &WatcherConfig) -> (r: bool)
    ensures
        r == should_ignore_spec(path@, views(config.extensions@), views(config.ignore_dirs@)),
{
    let comps = crate::module_registry::path_components(path);
    let ghost cv = views(comps@);
    let ghost ig = views(config.ignore_dirs@);
    let mut i: usize = 0;
    while i < config.ignore_dirs.len()
        invariant
            cv == views(comps@),
            cv == components(path@),
            ig == views(config.ignore_dirs@),
            i <= config.ignore_dirs.len(),
            forall|k: int| 0 <= k < i ==> !cv.contains(#[trigger] ig[k]),
        decreases config.ignore_dirs.len() - i,
    {
        assert(ig[i as int] == config.ignore_dirs@[i as int]@);
        if contains_str(&comps, config.ignore_dirs[i].as_str()) {
            return true;
        }
        i = i + 1;
    }
    let n = comps.len();
    if n == 0 {
        return true;
    }
    assert(cv.last() == comps@[n - 1]@);
    if str_eq(comps[n - 1].as_str(), "..") {
        return true;
    }
    let cs = chars_of(comps[n - 1].as_str());
    proof {
        crate::text::lemma_rposition_range(cs@.map_values(|c: char| seq![c]), |p: Seq<char>| p == seq!['.']);
    }
    match last_dot(&cs) {
        Some(d) => {
            if d == 0 {
                return true;
            }
            let ext = string_of_range(&cs, d + 1, cs.len());
            assert(cs@.subrange(d + 1, cs.len() as int) =~= cs@.skip(d + 1));
            !contains_str(&config.extensions, ext.as_str())
        },
        None => true,
    }
}

} // verus!
