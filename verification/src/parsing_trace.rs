//! Structured trace of package parsing: what came in, how modules and
//! types were extracted, what fell back, and a readable summary.

use vstd::prelude::*;
use vstd::string::StringExecFns;
use crate::chars::{str_to_lowercase, unicode_str_lowercase};
use crate::text::{
    chars_of, concat, contains_str, decimal, decimal_spec, is_prefix, push_char, split_char,
    split_spec, starts_with, string_of_range, strip_suffix, to_owned_string, views, clone_strings,
};

verus! {

broadcast use vstd::string::group_string_axioms;

// ---------------------------------------------------------------------------
// Text helpers with their meaning
// ---------------------------------------------------------------------------

/// The number of bytes of the UTF-8 encoding of `s`.
pub open spec fn utf8_len(s: Seq<char>) -> nat {
    vstd::utf8::encode_utf8(s).len()
}

/// What std's `Debug` formatting writes for a string with contents `s`
/// (quoted and escaped).
pub uninterp spec fn str_debug(s: Seq<char>) -> Seq<char>;

/// Byte length of a string slice: the length of its UTF-8 encoding.
fn byte_len(s: &str) -> (r: usize)
    ensures
        r == utf8_len(s@),
{
    s.as_bytes().len()
}

/// `Debug` formatting of a string slice.
/// Calls std's `Debug` implementation for `str` through `format!`; the
/// result is named, and depends on the contents alone.
#[verifier::external_body]
fn debug_quote(s: &str) -> (r: String)
    ensures
        r@ == str_debug(s@),
{
    format!("{:?}", s)
}

/// The first `n` characters of `s` (all of them when shorter).
pub open spec fn take_chars(s: Seq<char>, n: nat) -> Seq<char> {
    if s.len() <= n {
        s
    } else {
        s.take(n as int)
    }
}

/// A line without the carriage return that preceded its line feed.
pub open spec fn strip_cr(line: Seq<char>) -> Seq<char> {
    if line.len() > 0 && line.last() == '\r' {
        line.drop_last()
    } else {
        line
    }
}

/// std's `str::lines`: the pieces between line feeds, each that ended in a
/// line feed without a preceding carriage return, and the last piece only
/// when it is not empty.
pub open spec fn lines_spec(s: Seq<char>) -> Seq<Seq<char>> {
    let pieces = split_spec(s, '\n');
    let ended = pieces.drop_last().map_values(|p: Seq<char>| strip_cr(p));
    if pieces.last().len() == 0 {
        ended
    } else {
        ended.push(pieces.last())
    }
}

/// The lines of `ls` that start with `# Module:`, among the first `k`.
pub open spec fn markers_upto(ls: Seq<Seq<char>>, k: int) -> Seq<Seq<char>>
    decreases k,
{
    if k <= 0 {
        Seq::empty()
    } else {
        let prev = markers_upto(ls, k - 1);
        if is_prefix("# Module:"@, ls[k - 1]) {
            prev.push(ls[k - 1])
        } else {
            prev
        }
    }
}

/// `Debug` formatting of an optional string.
pub open spec fn debug_opt(o: Option<Seq<char>>) -> Seq<char> {
    match o {
        Some(s) => "Some("@ + str_debug(s) + ")"@,
        None => "None"@,
    }
}

/// `Debug` formatting of a list of strings, up to `k` items without the
/// closing bracket.
pub open spec fn debug_list_upto(v: Seq<Seq<char>>, k: int) -> Seq<char>
    decreases k,
{
    if k <= 0 {
        "["@
    } else if k == 1 {
        "["@ + str_debug(v[0])
    } else {
        debug_list_upto(v, k - 1) + ", "@ + str_debug(v[k - 1])
    }
}

/// `Debug` formatting of a list of strings.
pub open spec fn debug_list(v: Seq<Seq<char>>) -> Seq<char> {
    debug_list_upto(v, v.len() as int) + "]"@
}

/// `true` or `false`.
pub open spec fn bool_text(b: bool) -> Seq<char> {
    if b {
        "true"@
    } else {
        "false"@
    }
}

fn opt_debug(o: &Option<String>) -> (r: String)
    ensures
        r@ == debug_opt(crate::types::opt_str_view(*o)),
{
    match o {
        Some(s) => {
            let mut r = to_owned_string("Some(");
            let q = debug_quote(s.as_str());
            r.append(q.as_str());
            r.append(")");
            r
        },
        None => to_owned_string("None"),
    }
}

fn list_debug(v: &Vec<String>) -> (r: String)
    ensures
        r@ == debug_list(views(v@)),
{
    let ghost vs = views(v@);
    let mut r = to_owned_string("[");
    let mut i: usize = 0;
    while i < v.len()
        invariant
            vs == views(v@),
            i <= v.len(),
            r@ == debug_list_upto(vs, i as int),
        decreases v.len() - i,
    {
        if i > 0 {
            r.append(", ");
        }
        let q = debug_quote(v[i].as_str());
        r.append(q.as_str());
        assert(vs[i as int] == v@[i as int]@);
        i = i + 1;
    }
    r.append("]");
    r
}

fn bool_str(b: bool) -> (r: String)
    ensures
        r@ == bool_text(b),
{
    if b {
        to_owned_string("true")
    } else {
        to_owned_string("false")
    }
}

/// The first `n` characters of `s`.
fn prefix_chars(s: &str, n: usize) -> (r: String)
    ensures
        r@ == take_chars(s@, n as nat),
{
    let cs = chars_of(s);
    if cs.len() <= n {
        to_owned_string(s)
    } else {
        let r = string_of_range(&cs, 0, n);
        assert(cs@.subrange(0, n as int) =~= s@.take(n as int));
        r
    }
}

/// The lines of `s`.
fn lines_of(s: &str) -> (r: Vec<String>)
    ensures
        views(r@) == lines_spec(s@),
{
    let pieces = split_char(s, '\n');
    let ghost ps = views(pieces@);
    proof {
        crate::text::lemma_split_nonempty(s@, '\n');
    }
    let n = pieces.len();
    let mut r: Vec<String> = Vec::new();
    let mut i: usize = 0;
    while i + 1 < n
        invariant
            ps == views(pieces@),
            n == pieces.len(),
            n >= 1,
            i <= n - 1,
            views(r@) == ps.drop_last().take(i as int).map_values(|p: Seq<char>| strip_cr(p)),
        decreases n - i,
    {
        let cs = chars_of(pieces[i].as_str());
        let line = if cs.len() > 0 && cs[cs.len() - 1] == '\r' {
            let l = string_of_range(&cs, 0, cs.len() - 1);
            assert(cs@.subrange(0, cs.len() - 1) =~= cs@.drop_last());
            l
        } else {
            pieces[i].clone()
        };
        let ghost r0 = r@;
        r.push(line);
        proof {
            assert(ps[i as int] == cs@);
            assert(views(r@) =~= views(r0).push(line@));
            assert(ps.drop_last().take(i + 1).map_values(|p: Seq<char>| strip_cr(p)) =~= ps.drop_last().take(
                i as int,
            ).map_values(|p: Seq<char>| strip_cr(p)).push(strip_cr(ps[i as int])));
        }
        i = i + 1;
    }
    assert(ps.drop_last().take(i as int) =~= ps.drop_last());
    let last = &pieces[n - 1];
    assert(ps.last() == last@);
    if chars_of(last.as_str()).len() > 0 {
        let ghost r0 = r@;
        let l = last.clone();
        r.push(l);
        assert(views(r@) =~= views(r0).push(l@));
    }
    r
}

// ---------------------------------------------------------------------------
// The trace
// ---------------------------------------------------------------------------

/// Information about a module of the IR.
#[derive(Debug)]
pub struct ModuleInfo {
    pub name: String,
    pub type_count: usize,
    pub type_names: Vec<String>,
}

/// Trace of the input data.
#[derive(Debug)]
pub struct InputTrace {
    /// Byte length of the concatenated output.
    pub total_length: usize,
    /// Number of modules in the IR.
    pub ir_module_count: usize,
    /// The IR's modules.
    pub ir_modules: Vec<ModuleInfo>,
    /// The first 200 characters of the raw input.
    pub raw_preview: String,
    /// The module marker lines found.
    pub module_markers_found: Vec<String>,
}

/// A step in parsing a module section.
#[derive(Debug)]
pub struct ModuleParsingStep {
    pub section_index: usize,
    /// The section's first 500 characters.
    pub raw_section: String,
    pub extracted_name: Option<String>,
    pub found_in_ir: bool,
    /// The module content's first 500 characters.
    pub module_content: String,
    /// The number of lines of the module content.
    pub line_count: usize,
}

/// An attempt to extract a type.
#[derive(Debug)]
pub struct TypeExtractionAttempt {
    pub module_name: String,
    /// The name of the type being extracted.
    pub typename: String,
    pub strategy: String,
    pub success: bool,
    /// The first 100 characters of the extracted content.
    pub content_preview: Option<String>,
    pub error: Option<String>,
    pub target_file: String,
}

impl TypeExtractionAttempt {
    /// A recorded attempt; the content is kept as a 100-character preview.
    pub fn new(
        module_name: &str,
        typename: &str,
        strategy: &str,
        success: bool,
        content: Option<&str>,
        error: Option<String>,
        target_file: &str,
    ) -> (r: TypeExtractionAttempt)
        ensures
            r.module_name@ == module_name@,
            r.typename@ == typename@,
            r.strategy@ == strategy@,
            r.success == success,
            r.content_preview matches Some(p) <==> content is Some,
            r.content_preview matches Some(p) ==> p@ == take_chars(content->0@, 100),
            r.error == error,
            r.target_file@ == target_file@,
    {
        let content_preview = match content {
            Some(c) => Some(prefix_chars(c, 100)),
            None => None,
        };
        TypeExtractionAttempt {
            module_name: to_owned_string(module_name),
            typename: to_owned_string(typename),
            strategy: to_owned_string(strategy),
            success,
            content_preview,
            error,
            target_file: to_owned_string(target_file),
        }
    }
}

/// The final parsing result.
#[derive(Debug)]
pub struct ParsingResult {
    pub files_extracted: usize,
    pub file_names: Vec<String>,
    pub failed_extractions: Vec<String>,
    pub used_fallback: bool,
}

/// A fallback operation.
#[derive(Debug)]
pub struct FallbackOperation {
    pub reason: String,
    pub strategy: String,
    pub files_generated: Vec<String>,
}

/// The complete trace of a parsing operation.
#[derive(Debug)]
pub struct ParsingTrace {
    pub input: InputTrace,
    pub module_parsing: Vec<ModuleParsingStep>,
    pub type_extractions: Vec<TypeExtractionAttempt>,
    pub result: ParsingResult,
    pub fallbacks: Vec<FallbackOperation>,
}

/// The failed extractions among the first `k` modules: each type name whose
/// lower-cased form is not an extracted file stem, as `module.Type`.
pub open spec fn failed_upto(mods: Seq<ModuleInfo>, stems: Seq<Seq<char>>, k: int) -> Seq<Seq<char>>
    decreases k,
{
    if k <= 0 {
        Seq::empty()
    } else {
        failed_upto(mods, stems, k - 1) + failed_in_module(mods[k - 1], stems, mods[k - 1].type_names@.len() as int)
    }
}

/// The failed extractions of one module among its first `k` type names.
pub open spec fn failed_in_module(m: ModuleInfo, stems: Seq<Seq<char>>, k: int) -> Seq<Seq<char>>
    decreases k,
{
    if k <= 0 {
        Seq::empty()
    } else {
        let prev = failed_in_module(m, stems, k - 1);
        let t = m.type_names@[k - 1]@;
        if stems.contains(unicode_str_lowercase(t)) {
            prev
        } else {
            prev.push(m.name@ + "."@ + t)
        }
    }
}

/// The stems of the `.ncl` file names among the first `k`.
pub open spec fn stems_upto(files: Seq<Seq<char>>, k: int) -> Seq<Seq<char>>
    decreases k,
{
    if k <= 0 {
        Seq::empty()
    } else {
        let prev = stems_upto(files, k - 1);
        let f = files[k - 1];
        if crate::text::is_suffix(".ncl"@, f) {
            prev.push(f.take(f.len() - 4))
        } else {
            prev
        }
    }
}

/// The names of files given with their contents, in order.
pub open spec fn file_keys(files: Seq<(String, String)>) -> Seq<Seq<char>> {
    files.map_values(|f: (String, String)| f.0@)
}

/// The names of files given with their contents, in order.
fn keys_of_files(files: &Vec<(String, String)>) -> (r: Vec<String>)
    ensures
        views(r@) == file_keys(files@),
        r@.len() == files@.len(),
{
    let mut r: Vec<String> = Vec::new();
    let mut i: usize = 0;
    while i < files.len()
        invariant
            i <= files.len(),
            r@.len() == i,
            views(r@) == file_keys(files@).take(i as int),
        decreases files.len() - i,
    {
        let ghost r0 = r@;
        r.push(files[i].0.clone());
        assert(views(r@) =~= views(r0).push(files@[i as int].0@));
        assert(file_keys(files@).take(i + 1) =~= file_keys(files@).take(i as int).push(files@[i as int].0@));
        i = i + 1;
    }
    assert(file_keys(files@).take(i as int) =~= file_keys(files@));
    r
}

/// The names of type definitions, in order.
pub open spec fn definition_names(defs: Seq<crate::ir::TypeDefinition>) -> Seq<Seq<char>> {
    defs.map_values(|d: crate::ir::TypeDefinition| d.name@)
}

/// The names of type definitions, in order.
fn names_of_definitions(defs: &Vec<crate::ir::TypeDefinition>) -> (r: Vec<String>)
    ensures
        views(r@) == definition_names(defs@),
{
    let mut r: Vec<String> = Vec::new();
    let mut i: usize = 0;
    while i < defs.len()
        invariant
            i <= defs.len(),
            views(r@) == definition_names(defs@).take(i as int),
        decreases defs.len() - i,
    {
        let ghost r0 = r@;
        r.push(defs[i].name.clone());
        assert(views(r@) =~= views(r0).push(defs@[i as int].name@));
        assert(definition_names(defs@).take(i + 1) =~= definition_names(defs@).take(i as int).push(
            defs@[i as int].name@,
        ));
        i = i + 1;
    }
    assert(definition_names(defs@).take(i as int) =~= definition_names(defs@));
    r
}

impl ParsingTrace {
    /// An empty trace.
    pub fn new() -> (r: ParsingTrace)
        ensures
            r.input.total_length == 0,
            r.input.ir_module_count == 0,
            r.input.ir_modules@.len() == 0,
            r.input.raw_preview@.len() == 0,
            r.input.module_markers_found@.len() == 0,
            r.module_parsing@.len() == 0,
            r.type_extractions@.len() == 0,
            r.result.files_extracted == 0,
            r.result.file_names@.len() == 0,
            r.result.failed_extractions@.len() == 0,
            !r.result.used_fallback,
            r.fallbacks@.len() == 0,
    {
        ParsingTrace {
            input: InputTrace {
                total_length: 0,
                ir_module_count: 0,
                ir_modules: Vec::new(),
                raw_preview: String::new(),
                module_markers_found: Vec::new(),
            },
            module_parsing: Vec::new(),
            type_extractions: Vec::new(),
            result: ParsingResult {
                files_extracted: 0,
                file_names: Vec::new(),
                failed_extractions: Vec::new(),
                used_fallback: false,
            },
            fallbacks: Vec::new(),
        }
    }

    /// Record the input: its byte length, the IR's modules (each as its
    /// name and its types' names), a 200-character preview, and the
    /// `# Module:` marker lines found after the markers already recorded.
    pub fn record_input(&mut self, raw_output: &str, ir: &crate::ir::IR)
        ensures
            final(self).input.total_length == utf8_len(raw_output@),
            final(self).input.ir_module_count == ir.modules.len(),
            final(self).input.ir_modules@.len() == ir.modules.len(),
            forall|i: int| 0 <= i < ir.modules.len() ==> {
                &&& (#[trigger] final(self).input.ir_modules@[i]).name@ == ir.modules@[i].name@
                &&& final(self).input.ir_modules@[i].type_count == ir.modules@[i].types.len()
                &&& views(final(self).input.ir_modules@[i].type_names@) == definition_names(ir.modules@[i].types@)
            },
            final(self).input.raw_preview@ == take_chars(raw_output@, 200),
            views(final(self).input.module_markers_found@) == views(old(self).input.module_markers_found@)
                + markers_upto(lines_spec(raw_output@), lines_spec(raw_output@).len() as int),
            final(self).module_parsing == old(self).module_parsing,
            final(self).type_extractions == old(self).type_extractions,
            final(self).result == old(self).result,
            final(self).fallbacks == old(self).fallbacks,
    {
        self.input.total_length = byte_len(raw_output);
        self.input.ir_module_count = ir.modules.len();
        let mut infos: Vec<ModuleInfo> = Vec::new();
        let mut i: usize = 0;
        while i < ir.modules.len()
            invariant
                i <= ir.modules.len(),
                infos@.len() == i,
                forall|k: int| 0 <= k < i ==> {
                    &&& (#[trigger] infos@[k]).name@ == ir.modules@[k].name@
                    &&& infos@[k].type_count == ir.modules@[k].types.len()
                    &&& views(infos@[k].type_names@) == definition_names(ir.modules@[k].types@)
                },
            decreases ir.modules.len() - i,
        {
            let m = &ir.modules[i];
            infos.push(
                ModuleInfo {
                    name: m.name.clone(),
                    type_count: m.types.len(),
                    type_names: names_of_definitions(&m.types),
                },
            );
            i = i + 1;
        }
        self.input.ir_modules = infos;
        self.input.raw_preview = prefix_chars(raw_output, 200);
        let lines = lines_of(raw_output);
        let ghost ls = views(lines@);
        let mut markers: Vec<String> = Vec::new();
        let mut j: usize = 0;
        while j < lines.len()
            invariant
                ls == views(lines@),
                j <= lines.len(),
                views(markers@) == markers_upto(ls, j as int),
            decreases lines.len() - j,
        {
            assert(ls[j as int] == lines@[j as int]@);
            if starts_with(lines[j].as_str(), "# Module:") {
                let ghost before = markers@;
                let l = lines[j].clone();
                markers.push(l);
                assert(views(markers@) =~= views(before).push(l@));
            }
            j = j + 1;
        }
        let ghost m0 = self.input.module_markers_found@;
        let ghost mk = markers@;
        self.input.module_markers_found.append(&mut markers);
        assert(views(self.input.module_markers_found@) =~= views(m0) + views(mk));
    }

    /// Record a module parsing step (sections and contents kept to 500
    /// characters, with the content's line count).
    pub fn record_module_parse(
        &mut self,
        section_index: usize,
        raw_section: &str,
        extracted_name: Option<String>,
        found_in_ir: bool,
        module_content: &str,
    )
        ensures
            final(self).module_parsing@.len() == old(self).module_parsing@.len() + 1,
            final(self).module_parsing@.drop_last() == old(self).module_parsing@,
            ({
                let s = final(self).module_parsing@.last();
                &&& s.section_index == section_index
                &&& s.raw_section@ == take_chars(raw_section@, 500)
                &&& s.extracted_name == extracted_name
                &&& s.found_in_ir == found_in_ir
                &&& s.module_content@ == take_chars(module_content@, 500)
                &&& s.line_count == lines_spec(module_content@).len()
            }),
            final(self).input == old(self).input,
            final(self).type_extractions == old(self).type_extractions,
            final(self).result == old(self).result,
            final(self).fallbacks == old(self).fallbacks,
    {
        let line_count = lines_of(module_content).len();
        let step = ModuleParsingStep {
            section_index,
            raw_section: prefix_chars(raw_section, 500),
            extracted_name,
            found_in_ir,
            module_content: prefix_chars(module_content, 500),
            line_count,
        };
        self.module_parsing.push(step);
        assert(self.module_parsing@.drop_last() =~= old(self).module_parsing@);
    }

    /// Record a type extraction attempt.
    pub fn record_type_extraction(&mut self, attempt: TypeExtractionAttempt)
        ensures
            final(self).type_extractions@ == old(self).type_extractions@.push(attempt),
            final(self).input == old(self).input,
            final(self).module_parsing == old(self).module_parsing,
            final(self).result == old(self).result,
            final(self).fallbacks == old(self).fallbacks,
    {
        self.type_extractions.push(attempt);
    }

    /// Record the final result from the extracted files (name and content,
    /// by name in order, each name once): their number, the names, the
    /// fallback flag, and every type of the recorded modules whose
    /// lower-cased name is not an extracted `.ncl` file, appended as
    /// `module.Type`.
    pub fn record_result(&mut self, files: &Vec<(String, String)>, used_fallback: bool)
        requires
            crate::types::keys_sorted(crate::fingerprint::pair_views(files@)),
        ensures
            final(self).result.files_extracted == files.len(),
            views(final(self).result.file_names@) == file_keys(files@),
            final(self).result.used_fallback == used_fallback,
            views(final(self).result.failed_extractions@) == views(old(self).result.failed_extractions@)
                + failed_upto(
                old(self).input.ir_modules@,
                stems_upto(file_keys(files@), files.len() as int),
                old(self).input.ir_modules@.len() as int,
            ),
            final(self).input == old(self).input,
            final(self).module_parsing == old(self).module_parsing,
            final(self).type_extractions == old(self).type_extractions,
            final(self).fallbacks == old(self).fallbacks,
    {
        let file_names = keys_of_files(files);
        self.result.files_extracted = file_names.len();
        self.result.file_names = clone_strings(&file_names);
        self.result.used_fallback = used_fallback;
        let ghost fs = views(file_names@);
        let mut stems: Vec<String> = Vec::new();
        let mut i: usize = 0;
        while i < file_names.len()
            invariant
                fs == views(file_names@),
                i <= file_names.len(),
                views(stems@) == stems_upto(fs, i as int),
            decreases file_names.len() - i,
        {
            assert(fs[i as int] == file_names@[i as int]@);
            match strip_suffix(file_names[i].as_str(), ".ncl") {
                Some(s) => {
                    let ghost s0 = stems@;
                    proof {
                        reveal_strlit(".ncl");
                    }
                    stems.push(s);
                    assert(views(stems@) =~= views(s0).push(s@));
                },
                None => {},
            }
            i = i + 1;
        }
        let ghost st = views(stems@);
        let ghost mods = self.input.ir_modules@;
        let mut failures: Vec<String> = Vec::new();
        let mut m: usize = 0;
        while m < self.input.ir_modules.len()
            invariant
                mods == self.input.ir_modules@,
                st == views(stems@),
                m <= mods.len(),
                views(failures@) == failed_upto(mods, st, m as int),
            decreases mods.len() - m,
        {
            let ghost before_m = views(failures@);
            let mut t: usize = 0;
            while t < self.input.ir_modules[m].type_names.len()
                invariant
                    mods == self.input.ir_modules@,
                    st == views(stems@),
                    m < mods.len(),
                    t <= mods[m as int].type_names@.len(),
                    views(failures@) == before_m + failed_in_module(mods[m as int], st, t as int),
                decreases mods[m as int].type_names@.len() - t,
            {
                let lower = str_to_lowercase(self.input.ir_modules[m].type_names[t].as_str());
                if !contains_str(&stems, lower.as_str()) {
                    let mut entry = to_owned_string(self.input.ir_modules[m].name.as_str());
                    entry.append(".");
                    entry.append(self.input.ir_modules[m].type_names[t].as_str());
                    let ghost b = failures@;
                    failures.push(entry);
                    assert(views(failures@) =~= views(b).push(entry@));
                }
                t = t + 1;
            }
            assert(failed_upto(mods, st, m + 1) =~= failed_upto(mods, st, m as int) + failed_in_module(
                mods[m as int],
                st,
                mods[m as int].type_names@.len() as int,
            ));
            m = m + 1;
        }
        let ghost f0 = self.result.failed_extractions@;
        let ghost fl = failures@;
        self.result.failed_extractions.append(&mut failures);
        assert(views(self.result.failed_extractions@) =~= views(f0) + views(fl));
    }

    /// Record a fallback operation.
    pub fn record_fallback(&mut self, reason: &str, strategy: &str, files: Vec<String>)
        ensures
            final(self).fallbacks@.len() == old(self).fallbacks@.len() + 1,
            final(self).fallbacks@.drop_last() == old(self).fallbacks@,
            final(self).fallbacks@.last().reason@ == reason@,
            final(self).fallbacks@.last().strategy@ == strategy@,
            final(self).fallbacks@.last().files_generated == files,
            final(self).input == old(self).input,
            final(self).module_parsing == old(self).module_parsing,
            final(self).type_extractions == old(self).type_extractions,
            final(self).result == old(self).result,
    {
        self.fallbacks.push(
            FallbackOperation {
                reason: to_owned_string(reason),
                strategy: to_owned_string(strategy),
                files_generated: files,
            },
        );
        assert(self.fallbacks@.drop_last() =~= old(self).fallbacks@);
    }
}

/// The module-parsing report lines for the first `k` steps.
pub open spec fn parsing_lines_upto(steps: Seq<ModuleParsingStep>, k: int) -> Seq<char>
    decreases k,
{
    if k <= 0 {
        Seq::empty()
    } else {
        let st = steps[k - 1];
        parsing_lines_upto(steps, k - 1) + "  ["@ + decimal_spec((k - 1) as nat) + "] Module: "@
            + debug_opt(crate::types::opt_str_view(st.extracted_name)) + ", Found in IR: "@
            + bool_text(st.found_in_ir) + "\n"@
    }
}

/// The number of successful attempts among the first `k`.
pub open spec fn success_count_upto(ts: Seq<TypeExtractionAttempt>, k: int) -> nat
    decreases k,
{
    if k <= 0 {
        0
    } else {
        success_count_upto(ts, k - 1) + if ts[k - 1].success {
            1nat
        } else {
            0nat
        }
    }
}

/// The report lines for the failed attempts among the first `k`.
pub open spec fn failure_lines_upto(ts: Seq<TypeExtractionAttempt>, k: int) -> Seq<char>
    decreases k,
{
    if k <= 0 {
        Seq::empty()
    } else {
        let t = ts[k - 1];
        failure_lines_upto(ts, k - 1) + if t.success {
            Seq::<char>::empty()
        } else {
            "  ✗ "@ + t.module_name@ + "."@ + t.typename@ + ": "@ + debug_opt(crate::types::opt_str_view(t.error))
                + "\n"@
        }
    }
}

/// The summary report of a trace.
pub open spec fn summary_spec(t: ParsingTrace) -> Seq<char> {
    let steps = t.module_parsing@;
    let ts = t.type_extractions@;
    let succ = success_count_upto(ts, ts.len() as int);
    let failed = t.result.failed_extractions@;
    "=== Parsing Trace Summary ===\n"@ + "Input: "@ + decimal_spec(t.input.total_length as nat) + " chars, "@
        + decimal_spec(t.input.ir_module_count as nat) + " IR modules\n"@ + "Module markers found: "@
        + decimal_spec(t.input.module_markers_found@.len()) + "\n"@ + (if steps.len() > 0 {
        "\nModule Parsing:\n"@ + parsing_lines_upto(steps, steps.len() as int)
    } else {
        Seq::<char>::empty()
    }) + (if ts.len() > 0 {
        "\nType Extractions:\n"@ + "  Successful: "@ + decimal_spec(succ) + ", Failed: "@ + decimal_spec(
            (ts.len() - succ) as nat,
        ) + "\n"@ + failure_lines_upto(ts, ts.len() as int)
    } else {
        Seq::<char>::empty()
    }) + "\nResult: "@ + decimal_spec(t.result.files_extracted as nat) + " files extracted\n"@ + (if t.result.used_fallback {
        "⚠️  Fallback was used\n"@
    } else {
        Seq::<char>::empty()
    }) + (if failed.len() > 0 {
        "Failed to extract: "@ + debug_list(views(failed)) + "\n"@
    } else {
        Seq::<char>::empty()
    })
}

impl ParsingTrace {
    /// A readable summary report.
    #[verifier::rlimit(40)]
    pub fn summary(&self) -> (r: String)
        ensures
            r@ == summary_spec(*self),
    {
        let mut report = to_owned_string("=== Parsing Trace Summary ===\n");
        report.append("Input: ");
        report.append(decimal(self.input.total_length).as_str());
        report.append(" chars, ");
        report.append(decimal(self.input.ir_module_count).as_str());
        report.append(" IR modules\n");
        report.append("Module markers found: ");
        report.append(decimal(self.input.module_markers_found.len()).as_str());
        report.append("\n");
        let ghost head = report@;
        let mut part = String::new();
        if self.module_parsing.len() > 0 {
            part.append("\nModule Parsing:\n");
            let ghost start = part@;
            let mut i: usize = 0;
            while i < self.module_parsing.len()
                invariant
                    i <= self.module_parsing.len(),
                    part@ == start + parsing_lines_upto(self.module_parsing@, i as int),
                decreases self.module_parsing.len() - i,
            {
                let step = &self.module_parsing[i];
                part.append("  [");
                part.append(decimal(i).as_str());
                part.append("] Module: ");
                part.append(opt_debug(&step.extracted_name).as_str());
                part.append(", Found in IR: ");
                part.append(bool_str(step.found_in_ir).as_str());
                part.append("\n");
                i = i + 1;
            }
        }
        report.append(part.as_str());
        let mut ext = String::new();
        if self.type_extractions.len() > 0 {
            let mut successful: usize = 0;
            let mut i: usize = 0;
            while i < self.type_extractions.len()
                invariant
                    i <= self.type_extractions.len(),
                    successful == success_count_upto(self.type_extractions@, i as int),
                    successful <= i,
                decreases self.type_extractions.len() - i,
            {
                if self.type_extractions[i].success {
                    successful = successful + 1;
                }
                i = i + 1;
            }
            let failed = self.type_extractions.len() - successful;
            ext.append("\nType Extractions:\n");
            ext.append("  Successful: ");
            ext.append(decimal(successful).as_str());
            ext.append(", Failed: ");
            ext.append(decimal(failed).as_str());
            ext.append("\n");
            let ghost start = ext@;
            let mut j: usize = 0;
            while j < self.type_extractions.len()
                invariant
                    j <= self.type_extractions.len(),
                    ext@ == start + failure_lines_upto(self.type_extractions@, j as int),
                decreases self.type_extractions.len() - j,
            {
                let t = &self.type_extractions[j];
                if !t.success {
                    ext.append("  ✗ ");
                    ext.append(t.module_name.as_str());
                    ext.append(".");
                    ext.append(t.typename.as_str());
                    ext.append(": ");
                    ext.append(opt_debug(&t.error).as_str());
                    ext.append("\n");
                }
                j = j + 1;
            }
        }
        report.append(ext.as_str());
        report.append("\nResult: ");
        report.append(decimal(self.result.files_extracted).as_str());
        report.append(" files extracted\n");
        if self.result.used_fallback {
            report.append("⚠️  Fallback was used\n");
        }
        if self.result.failed_extractions.len() > 0 {
            report.append("Failed to extract: ");
            report.append(list_debug(&self.result.failed_extractions).as_str());
            report.append("\n");
        }
        report
    }
}

impl Default for ParsingTrace {
    fn default() -> (r: Self)
        ensures
            r.module_parsing@.len() == 0,
            r.type_extractions@.len() == 0,
            r.fallbacks@.len() == 0,
    {
        Self::new()
    }
}

/// Builder for traces.
pub struct TraceBuilder {
    trace: ParsingTrace,
}

impl TraceBuilder {
    /// The trace being built.
    pub closed spec fn current(&self) -> ParsingTrace {
        self.trace
    }

    /// A builder holding an empty trace.
    pub fn new() -> (r: TraceBuilder)
        ensures
            r.current().module_parsing@.len() == 0,
            r.current().type_extractions@.len() == 0,
            r.current().fallbacks@.len() == 0,
            r.current().input.module_markers_found@.len() == 0,
            r.current().input.ir_modules@.len() == 0,
            r.current().result.failed_extractions@.len() == 0,
    {
        TraceBuilder { trace: ParsingTrace::new() }
    }

    /// The builder with the input recorded.
    pub fn with_input(self, raw: &str, ir: &crate::ir::IR) -> (r: TraceBuilder)
        ensures
            r.current().input.total_length == utf8_len(raw@),
            r.current().input.ir_module_count == ir.modules.len(),
            r.current().input.ir_modules@.len() == ir.modules.len(),
            forall|i: int| 0 <= i < ir.modules.len() ==> {
                &&& (#[trigger] r.current().input.ir_modules@[i]).name@ == ir.modules@[i].name@
                &&& r.current().input.ir_modules@[i].type_count == ir.modules@[i].types.len()
                &&& views(r.current().input.ir_modules@[i].type_names@) == definition_names(ir.modules@[i].types@)
            },
            r.current().input.raw_preview@ == take_chars(raw@, 200),
            views(r.current().input.module_markers_found@) == views(self.current().input.module_markers_found@)
                + markers_upto(lines_spec(raw@), lines_spec(raw@).len() as int),
            r.current().module_parsing == self.current().module_parsing,
            r.current().type_extractions == self.current().type_extractions,
            r.current().result == self.current().result,
            r.current().fallbacks == self.current().fallbacks,
    {
        let mut b = self;
        b.trace.record_input(raw, ir);
        b
    }

    /// The trace built.
    pub fn build(self) -> (r: ParsingTrace)
        ensures
            r == self.current(),
    {
        self.trace
    }
}

impl Default for TraceBuilder {
    fn default() -> (r: Self)
        ensures
            r.current().module_parsing@.len() == 0,
            r.current().type_extractions@.len() == 0,
            r.current().fallbacks@.len() == 0,
    {
        Self::new()
    }
}

} // verus!
