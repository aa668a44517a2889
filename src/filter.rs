//! Filter compilation and the per-entry filter decisions.

use crate::text::{
    contains_text, is_substring, list_has, lower_of, lowercase, strip_leading_dots, texts,
    trim_of, trimmed, without_leading_dots,
};
use regex::Regex;
use vstd::prelude::*;

verus! {

/// Relies on `regex::Regex` as an opaque compiled pattern.
#[verifier::external_type_specification]
#[verifier::external_body]
pub struct ExRegex(regex::Regex);

/// Whether `regex::Regex::new` accepts a pattern.
pub uninterp spec fn regex_compiles(pattern: Seq<char>) -> bool;

/// Whether the regex compiled from `pattern` matches somewhere in `text`.
pub uninterp spec fn regex_finds(pattern: Seq<char>, text: Seq<char>) -> bool;

/// A compiled regular expression together with the pattern it came from.
pub struct PatternMatcher {
    pattern: String,
    re: Regex,
}

impl PatternMatcher {
    pub closed spec fn pattern(&self) -> Seq<char> {
        self.pattern@
    }
}

/// Relies on `regex::Regex::new`: whether it succeeds depends on the pattern alone.
#[verifier::external_body]
fn compile_pattern(pattern: &String) -> (r: Result<PatternMatcher, String>)
    ensures
        r is Ok <==> regex_compiles(pattern@),
        r is Ok ==> r->Ok_0.pattern() == pattern@,
{
    match Regex::new(pattern) {
        Ok(re) => Ok(PatternMatcher { pattern: pattern.clone(), re }),
        Err(err) => Err(err.to_string()),
    }
}

/// Relies on `regex::Regex::is_match`: true when the regex matches anywhere in the text.
#[verifier::external_body]
fn pattern_finds(m: &PatternMatcher, text: &str) -> (r: bool)
    ensures
        r == regex_finds(m.pattern(), text@),
{
    m.re.is_match(text)
}

/// The filters as submitted by the user.
pub struct ScanFilters {
    pub include_extensions: Vec<String>,
    pub exclude_extensions: Vec<String>,
    pub include_names: Vec<String>,
    pub exclude_names: Vec<String>,
    pub min_size_bytes: Option<u64>,
    pub max_size_bytes: Option<u64>,
    pub include_regex: Option<String>,
    pub exclude_regex: Option<String>,
    pub include_paths: Vec<String>,
    pub exclude_paths: Vec<String>,
}

/// Why a filter specification was rejected.
pub enum FilterError {
    /// The minimum size exceeds the maximum size.
    InvalidSizeBounds,
    /// A regular expression did not compile; the message says why.
    InvalidPattern(String),
}

impl FilterError {
    /// A human-readable message for the error.
    pub fn message(&self) -> (r: String)
        ensures
            self matches FilterError::InvalidPattern(m) ==> r@ == m@,
            self is InvalidSizeBounds ==> r@ == "Min size cannot exceed max size"@,
    {
        match self {
            FilterError::InvalidSizeBounds => String::from_str("Min size cannot exceed max size"),
            FilterError::InvalidPattern(m) => m.clone(),
        }
    }
}

/// Which categories of rule a compiled filter holds, so that the per-entry
/// path can skip string work that no rule needs.
pub struct FilterFlags {
    pub has_includes: bool,
    pub has_file_excludes: bool,
    pub has_dir_excludes: bool,
    pub needs_path: bool,
    pub needs_name: bool,
    pub needs_extension: bool,
}

/// A compiled filter: normalized rule lists, size bounds, compiled patterns.
pub struct FilterConfig {
    include_extensions: Vec<String>,
    exclude_extensions: Vec<String>,
    include_names: Vec<String>,
    exclude_names: Vec<String>,
    min_size_bytes: Option<u64>,
    max_size_bytes: Option<u64>,
    include_regex: Option<PatternMatcher>,
    exclude_regex: Option<PatternMatcher>,
    include_paths: Vec<String>,
    exclude_paths: Vec<String>,
    flags: FilterFlags,
}

/// The mathematical content of a compiled filter.
pub struct FilterView {
    pub include_extensions: Seq<Seq<char>>,
    pub exclude_extensions: Seq<Seq<char>>,
    pub include_names: Seq<Seq<char>>,
    pub exclude_names: Seq<Seq<char>>,
    pub min_size_bytes: Option<u64>,
    pub max_size_bytes: Option<u64>,
    pub include_regex: Option<Seq<char>>,
    pub exclude_regex: Option<Seq<char>>,
    pub include_paths: Seq<Seq<char>>,
    pub exclude_paths: Seq<Seq<char>>,
}

pub open spec fn pattern_view(p: Option<PatternMatcher>) -> Option<Seq<char>> {
    match p {
        Some(m) => Some(m.pattern()),
        None => None,
    }
}

pub open spec fn opt_text(s: Option<String>) -> Option<Seq<char>> {
    match s {
        Some(t) => Some(t@),
        None => None,
    }
}

impl View for FilterConfig {
    type V = FilterView;

    closed spec fn view(&self) -> FilterView {
        FilterView {
            include_extensions: texts(self.include_extensions@),
            exclude_extensions: texts(self.exclude_extensions@),
            include_names: texts(self.include_names@),
            exclude_names: texts(self.exclude_names@),
            min_size_bytes: self.min_size_bytes,
            max_size_bytes: self.max_size_bytes,
            include_regex: pattern_view(self.include_regex),
            exclude_regex: pattern_view(self.exclude_regex),
            include_paths: texts(self.include_paths@),
            exclude_paths: texts(self.exclude_paths@),
        }
    }
}

/// The cleaned form of an extension rule: trimmed, leading dots removed, lower-cased.
pub open spec fn clean_extension(s: Seq<char>) -> Seq<char> {
    lower_of(strip_leading_dots(trim_of(s)))
}

/// The cleaned form of a name or path rule: trimmed and lower-cased.
pub open spec fn clean_text(s: Seq<char>) -> Seq<char> {
    lower_of(trim_of(s))
}

/// Cleans each value, drops empty results and repeats, and keeps the order in
/// which the survivors first appear.
pub open spec fn normalized(values: Seq<Seq<char>>, ext: bool) -> Seq<Seq<char>>
    decreases values.len(),
{
    if values.len() == 0 {
        Seq::empty()
    } else {
        let prev = normalized(values.drop_last(), ext);
        let c = if ext {
            clean_extension(values.last())
        } else {
            clean_text(values.last())
        };
        if c.len() > 0 && !prev.contains(c) {
            prev.push(c)
        } else {
            prev
        }
    }
}

/// The size bounds are consistent.
pub open spec fn bounds_ok(f: ScanFilters) -> bool {
    match (f.min_size_bytes, f.max_size_bytes) {
        (Some(lo), Some(hi)) => lo <= hi,
        _ => true,
    }
}

pub open spec fn pattern_ok(p: Option<String>) -> bool {
    match p {
        Some(t) => regex_compiles(t@),
        None => true,
    }
}

/// What compiling `f` yields when it succeeds.
pub open spec fn compiled(f: ScanFilters) -> FilterView {
    FilterView {
        include_extensions: normalized(texts(f.include_extensions@), true),
        exclude_extensions: normalized(texts(f.exclude_extensions@), true),
        include_names: normalized(texts(f.include_names@), false),
        exclude_names: normalized(texts(f.exclude_names@), false),
        min_size_bytes: f.min_size_bytes,
        max_size_bytes: f.max_size_bytes,
        include_regex: opt_text(f.include_regex),
        exclude_regex: opt_text(f.exclude_regex),
        include_paths: normalized(texts(f.include_paths@), false),
        exclude_paths: normalized(texts(f.exclude_paths@), false),
    }
}

/// Some non-empty value of `values` occurs in `hay`.
pub open spec fn any_within(values: Seq<Seq<char>>, hay: Seq<char>) -> bool {
    exists|k: int| 0 <= k < values.len() && values[k].len() > 0 && is_substring(#[trigger] values[k], hay)
}

pub open spec fn regex_hit(p: Option<Seq<char>>, text: Seq<char>) -> bool {
    match p {
        Some(pat) => regex_finds(pat, text),
        None => false,
    }
}

pub open spec fn ext_in(values: Seq<Seq<char>>, ext: Option<Seq<char>>) -> bool {
    match ext {
        Some(e) => values.contains(e),
        None => false,
    }
}

pub open spec fn has_includes(f: FilterView) -> bool {
    f.include_extensions.len() > 0 || f.include_names.len() > 0 || f.include_paths.len() > 0
        || f.include_regex is Some
}

pub open spec fn size_in_bounds(f: FilterView, size: u64) -> bool {
    (match f.min_size_bytes {
        Some(lo) => lo <= size,
        None => true,
    }) && (match f.max_size_bytes {
        Some(hi) => size <= hi,
        None => true,
    })
}

/// A file is excluded by some exclusion rule; `path`, `name` and `ext` are lower-cased.
pub open spec fn file_excluded(
    f: FilterView,
    path: Seq<char>,
    name: Seq<char>,
    ext: Option<Seq<char>>,
) -> bool {
    regex_hit(f.exclude_regex, path) || any_within(f.exclude_paths, path) || any_within(
        f.exclude_names,
        name,
    ) || ext_in(f.exclude_extensions, ext)
}

/// A file matches some inclusion rule; `path`, `name` and `ext` are lower-cased.
pub open spec fn file_included(
    f: FilterView,
    path: Seq<char>,
    name: Seq<char>,
    ext: Option<Seq<char>>,
) -> bool {
    regex_hit(f.include_regex, path) || any_within(f.include_paths, path) || any_within(
        f.include_names,
        name,
    ) || ext_in(f.include_extensions, ext)
}

pub open spec fn lower_ext(ext: Option<Seq<char>>) -> Option<Seq<char>> {
    match ext {
        Some(e) => Some(lower_of(e)),
        None => None,
    }
}

/// The decision on a file from its lower-cased path, name and extension.
pub open spec fn file_decision(
    f: FilterView,
    path: Seq<char>,
    name: Seq<char>,
    ext: Option<Seq<char>>,
    size: u64,
) -> bool {
    size_in_bounds(f, size) && !file_excluded(f, path, name, ext) && (!has_includes(f)
        || file_included(f, path, name, ext))
}

/// The decision on a directory from its lower-cased path and name.
pub open spec fn dir_decision(f: FilterView, path: Seq<char>, name: Seq<char>) -> bool {
    regex_hit(f.exclude_regex, path) || any_within(f.exclude_paths, path) || any_within(
        f.exclude_names,
        name,
    )
}

/// A file of the given path, name, extension and size is recorded by the scan.
pub open spec fn file_passes(
    f: FilterView,
    path: Seq<char>,
    name: Seq<char>,
    ext: Option<Seq<char>>,
    size: u64,
) -> bool {
    file_decision(f, lower_of(path), lower_of(name), lower_ext(ext), size)
}

/// A directory other than the scan root is pruned, with everything beneath it.
/// Directories have exclusion rules only.
pub open spec fn dir_pruned(f: FilterView, path: Seq<char>, name: Seq<char>) -> bool {
    dir_decision(f, lower_of(path), lower_of(name))
}

impl FilterConfig {
    /// The flags agree with the rule lists, and no rule is empty.
    pub closed spec fn wf(&self) -> bool {
        let v = self@;
        &&& self.flags.has_includes == has_includes(v)
        &&& self.flags.has_dir_excludes == (v.exclude_paths.len() > 0 || v.exclude_names.len() > 0
            || v.exclude_regex is Some)
        &&& self.flags.has_file_excludes == (self.flags.has_dir_excludes
            || v.exclude_extensions.len() > 0)
        &&& self.flags.needs_path == (v.exclude_paths.len() > 0 || v.include_paths.len() > 0
            || v.include_regex is Some || v.exclude_regex is Some)
        &&& self.flags.needs_name == (v.exclude_names.len() > 0 || v.include_names.len() > 0)
        &&& self.flags.needs_extension == (v.include_extensions.len() > 0
            || v.exclude_extensions.len() > 0)
    }
}

/// Cleans each rule value (extensions also lose their leading dots), drops
/// empty results and repeats, and keeps first-seen order.
pub fn normalize_values(values: &Vec<String>, ext: bool) -> (r: Vec<String>)
    ensures
        texts(r@) == normalized(texts(values@), ext),
{
    let mut list: Vec<String> = Vec::new();
    let mut i: usize = 0;
    while i < values.len()
        invariant
            i <= values@.len(),
            texts(list@) == normalized(texts(values@).take(i as int), ext),
        decreases values@.len() - i,
    {
        let t = trimmed(values[i].as_str());
        let cleaned = if ext {
            let d = without_leading_dots(t.as_str());
            lowercase(d.as_str())
        } else {
            lowercase(t.as_str())
        };
        let seen = list_has(&list, &cleaned);
        let n = cleaned.as_str().unicode_len();
        proof {
            let pre = texts(values@).take(i as int + 1);
            assert(pre.drop_last() =~= texts(values@).take(i as int));
            assert(pre.last() == values@[i as int]@);
        }
        if n > 0 && !seen {
            list.push(cleaned);
            assert(texts(list@) =~= normalized(texts(values@).take(i as int), ext).push(cleaned@));
        }
        i += 1;
    }
    assert(texts(values@).take(values@.len() as int) =~= texts(values@));
    list
}

/// Normalizes extension rules.
pub fn normalize_extensions(values: &Vec<String>) -> (r: Vec<String>)
    ensures
        texts(r@) == normalized(texts(values@), true),
{
    normalize_values(values, true)
}

/// Normalizes name or path rules.
pub fn normalize_list(values: &Vec<String>) -> (r: Vec<String>)
    ensures
        texts(r@) == normalized(texts(values@), false),
{
    normalize_values(values, false)
}

fn compile_optional(p: &Option<String>) -> (r: Result<Option<PatternMatcher>, FilterError>)
    ensures
        r is Ok <==> pattern_ok(*p),
        r is Ok ==> pattern_view(r->Ok_0) == opt_text(*p),
        r is Err ==> r->Err_0 is InvalidPattern,
{
    match p {
        Some(pattern) => match compile_pattern(pattern) {
            Ok(m) => Ok(Some(m)),
            Err(msg) => Err(FilterError::InvalidPattern(msg)),
        },
        None => Ok(None),
    }
}

/// Compiles a filter specification. It is rejected with `InvalidSizeBounds`
/// when the minimum exceeds the maximum, and otherwise with `InvalidPattern`
/// when one of its regular expressions does not compile.
pub fn build_filter_config(filters: &ScanFilters) -> (r: Result<FilterConfig, FilterError>)
    ensures
        r is Ok <==> bounds_ok(*filters) && pattern_ok(filters.include_regex) && pattern_ok(
            filters.exclude_regex,
        ),
        !bounds_ok(*filters) ==> r matches Err(FilterError::InvalidSizeBounds),
        bounds_ok(*filters) && r is Err ==> r->Err_0 is InvalidPattern,
        r is Ok ==> r->Ok_0.wf() && r->Ok_0@ == compiled(*filters),
{
    if let (Some(min), Some(max)) = (filters.min_size_bytes, filters.max_size_bytes) {
        if min > max {
            return Err(FilterError::InvalidSizeBounds);
        }
    }
    let include_regex = match compile_optional(&filters.include_regex) {
        Ok(m) => m,
        Err(e) => return Err(e),
    };
    let exclude_regex = match compile_optional(&filters.exclude_regex) {
        Ok(m) => m,
        Err(e) => return Err(e),
    };
    let include_extensions = normalize_extensions(&filters.include_extensions);
    let exclude_extensions = normalize_extensions(&filters.exclude_extensions);
    let include_names = normalize_list(&filters.include_names);
    let exclude_names = normalize_list(&filters.exclude_names);
    let include_paths = normalize_list(&filters.include_paths);
    let exclude_paths = normalize_list(&filters.exclude_paths);
    let has_include_extensions = include_extensions.len() > 0;
    let has_exclude_extensions = exclude_extensions.len() > 0;
    let has_include_names = include_names.len() > 0;
    let has_exclude_names = exclude_names.len() > 0;
    let has_include_paths = include_paths.len() > 0;
    let has_exclude_paths = exclude_paths.len() > 0;
    let has_include_regex = include_regex.is_some();
    let has_exclude_regex = exclude_regex.is_some();
    let has_includes = has_include_extensions || has_include_names || has_include_paths
        || has_include_regex;
    let has_dir_excludes = has_exclude_paths || has_exclude_names || has_exclude_regex;
    let has_file_excludes = has_dir_excludes || has_exclude_extensions;
    let needs_path = has_exclude_paths || has_include_paths || has_include_regex
        || has_exclude_regex;
    let needs_name = has_exclude_names || has_include_names;
    let needs_extension = has_include_extensions || has_exclude_extensions;
    let config = FilterConfig {
        include_extensions,
        exclude_extensions,
        include_names,
        exclude_names,
        min_size_bytes: filters.min_size_bytes,
        max_size_bytes: filters.max_size_bytes,
        include_regex,
        exclude_regex,
        include_paths,
        exclude_paths,
        flags: FilterFlags {
            has_includes,
            has_file_excludes,
            has_dir_excludes,
            needs_path,
            needs_name,
            needs_extension,
        },
    };
    assert(config@ == compiled(*filters));
    Ok(config)
}

/// True when some non-empty value of `values` occurs in `hay`.
pub fn path_contains_any(hay: &str, values: &Vec<String>) -> (r: bool)
    ensures
        r == any_within(texts(values@), hay@),
{
    let mut i: usize = 0;
    while i < values.len()
        invariant
            i <= values@.len(),
            forall|k: int|
                0 <= k < i ==> !(values@[k]@.len() > 0 && is_substring(
                    #[trigger] texts(values@)[k],
                    hay@,
                )),
        decreases values@.len() - i,
    {
        let v = values[i].as_str();
        if v.unicode_len() > 0 && contains_text(hay, v) {
            assert(texts(values@)[i as int] == values@[i as int]@);
            return true;
        }
        assert(texts(values@)[i as int] == values@[i as int]@);
        i += 1;
    }
    false
}

/// True when a pattern is present and matches `text`.
pub fn matches_regex(text: &str, p: &Option<PatternMatcher>) -> (r: bool)
    ensures
        r == regex_hit(pattern_view(*p), text@),
{
    match p {
        Some(m) => pattern_finds(m, text),
        None => false,
    }
}

fn ext_matches(values: &Vec<String>, ext: &Option<String>) -> (r: bool)
    ensures
        r == ext_in(texts(values@), opt_text(*ext)),
{
    match ext {
        Some(e) => list_has(values, e),
        None => false,
    }
}

/// Lower-cases `s` when `wanted`; the empty string otherwise.
fn lower_if(wanted: bool, s: &String) -> (r: String)
    ensures
        wanted ==> r@ == lower_of(s@),
{
    if wanted {
        lowercase(s.as_str())
    } else {
        String::new()
    }
}

/// Decides on a file from its lower-cased path, name and extension: it must
/// lie within the size bounds, clear every exclusion rule and, when
/// inclusion rules exist, match one.
pub fn decide_file(
    path_lower: &String,
    name_lower: &String,
    ext_lower: &Option<String>,
    size_bytes: u64,
    filters: &FilterConfig,
) -> (r: bool)
    requires
        filters.wf(),
    ensures
        r == file_decision(filters@, path_lower@, name_lower@, opt_text(*ext_lower), size_bytes),
{
    if let Some(min_size) = filters.min_size_bytes {
        if size_bytes < min_size {
            return false;
        }
    }
    if let Some(max_size) = filters.max_size_bytes {
        if size_bytes > max_size {
            return false;
        }
    }
    if filters.flags.has_file_excludes {
        if matches_regex(path_lower.as_str(), &filters.exclude_regex) {
            return false;
        }
        if path_contains_any(path_lower.as_str(), &filters.exclude_paths) {
            return false;
        }
        if path_contains_any(name_lower.as_str(), &filters.exclude_names) {
            return false;
        }
        if ext_matches(&filters.exclude_extensions, ext_lower) {
            return false;
        }
    }
    if !filters.flags.has_includes {
        return true;
    }
    if matches_regex(path_lower.as_str(), &filters.include_regex) {
        return true;
    }
    if path_contains_any(path_lower.as_str(), &filters.include_paths) {
        return true;
    }
    if path_contains_any(name_lower.as_str(), &filters.include_names) {
        return true;
    }
    ext_matches(&filters.include_extensions, ext_lower)
}

/// Decides whether a file is recorded. Only the parts that some rule reads
/// are lower-cased.
pub fn should_include_file(
    path: &String,
    name: &String,
    extension: &Option<String>,
    size_bytes: u64,
    filters: &FilterConfig,
) -> (r: bool)
    requires
        filters.wf(),
    ensures
        r == file_passes(filters@, path@, name@, opt_text(*extension), size_bytes),
{
    let path_value = lower_if(filters.flags.needs_path, path);
    let name_value = lower_if(filters.flags.needs_name, name);
    let ext: Option<String> = if filters.flags.needs_extension {
        match extension {
            Some(e) => Some(lowercase(e.as_str())),
            None => None,
        }
    } else {
        None
    };
    let r = decide_file(&path_value, &name_value, &ext, size_bytes, filters);
    proof {
        let f = filters@;
        let lp = lower_of(path@);
        let ln = lower_of(name@);
        let le = lower_ext(opt_text(*extension));
        assert(file_excluded(f, path_value@, name_value@, opt_text(ext)) == file_excluded(f, lp, ln, le));
        assert(file_included(f, path_value@, name_value@, opt_text(ext)) == file_included(f, lp, ln, le));
    }
    r
}

/// Decides on a directory other than the root from its lower-cased path
/// and name: it is pruned only by an exclusion rule.
pub fn decide_dir(path_lower: &String, name_lower: &String, filters: &FilterConfig) -> (r: bool)
    requires
        filters.wf(),
    ensures
        r == dir_decision(filters@, path_lower@, name_lower@),
{
    if !filters.flags.has_dir_excludes {
        return false;
    }
    if matches_regex(path_lower.as_str(), &filters.exclude_regex) {
        return true;
    }
    if path_contains_any(path_lower.as_str(), &filters.exclude_paths) {
        return true;
    }
    path_contains_any(name_lower.as_str(), &filters.exclude_names)
}

/// Decides whether a directory is pruned. The scan root never is.
pub fn should_skip_dir(is_root: bool, path: &String, name: &String, filters: &FilterConfig) -> (r:
    bool)
    requires
        filters.wf(),
    ensures
        r == (!is_root && dir_pruned(filters@, path@, name@)),
{
    if is_root {
        return false;
    }
    if !filters.flags.has_dir_excludes {
        return false;
    }
    let path_value = lower_if(filters.flags.needs_path, path);
    let name_value = lower_if(filters.flags.needs_name, name);
    let r = decide_dir(&path_value, &name_value, filters);
    proof {
        let f = filters@;
        assert(dir_decision(f, path_value@, name_value@) == dir_decision(f, lower_of(path@), lower_of(name@)));
    }
    r
}

/// Compiling one filter specification twice gives filters that classify
/// every file and every directory identically.
pub proof fn lemma_compilation_is_deterministic(
    filters: ScanFilters,
    a: FilterConfig,
    b: FilterConfig,
    path: Seq<char>,
    name: Seq<char>,
    ext: Option<Seq<char>>,
    size: u64,
)
    requires
        a@ == compiled(filters),
        b@ == compiled(filters),
    ensures
        file_passes(a@, path, name, ext, size) == file_passes(b@, path, name, ext, size),
        dir_pruned(a@, path, name) == dir_pruned(b@, path, name),
{
}

} // verus!
