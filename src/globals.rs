//! Configuration: the runtime settings, the label map that says what to
//! extract from which pages, and the records that are saved.
use regex::Regex;
use vstd::prelude::*;

verus! {

#[verifier::external_type_specification]
#[verifier::external_body]
pub struct ExRegex(Regex);

/// Whether `regex::Regex::new` accepts `pattern`.
pub uninterp spec fn regex_valid(pattern: Seq<char>) -> bool;

/// Whether the regex compiled from `pattern` matches somewhere in `hay`.
pub uninterp spec fn regex_matches(pattern: Seq<char>, hay: Seq<char>) -> bool;

/// Relies on `regex::Regex::new`, which fails on an invalid pattern.
#[verifier::external_body]
fn compile_regex(pattern: &str) -> (r: Option<Regex>)
    ensures
        r is Some <==> regex_valid(pattern@),
{
    Regex::new(pattern).ok()
}

/// Relies on `regex::Regex::is_match`; a `Pattern`'s regex is always the one
/// compiled from its source (see `Pattern::new`).
#[verifier::external_body]
fn pattern_is_match(p: &Pattern, hay: &str) -> (r: bool)
    ensures
        r == regex_matches(p.source(), hay@),
{
    p.re.is_match(hay)
}

/// A compiled regular expression, kept with its source text.
pub struct Pattern {
    source: String,
    re: Regex,
}

impl Pattern {
    pub closed spec fn source(&self) -> Seq<char> {
        self.source@
    }

    pub fn new(source: &str) -> (r: Option<Pattern>)
        ensures
            r is Some <==> regex_valid(source@),
            r matches Some(p) ==> p.source() == source@,
    {
        match compile_regex(source) {
            Some(re) => Some(Pattern { source: source.to_owned(), re }),
            None => None,
        }
    }

    /// Whether the pattern matches somewhere in `hay`.
    pub fn is_match(&self, hay: &str) -> (r: bool)
        ensures
            r == regex_matches(self.source(), hay@),
    {
        pattern_is_match(self, hay)
    }
}

/// Which discovered paths to drop: those the regex matches, or with `invert`
/// those it does not match.
pub struct PathExcludeSettings {
    pub re: String,
    pub invert: bool,
}

/// What to crawl and what to extract.
pub struct LabelMaps {
    /// The one host that is crawled.
    pub domain: String,
    pub path_exclude: Option<PathExcludeSettings>,
    /// Headers sent with every request.
    pub headers: Option<Vec<(String, String)>>,
    pub maps: Vec<LabelMap>,
}

/// One rule: pages whose path matches `path_match_re` get `labels` extracted.
pub struct LabelMap {
    pub path_match_re: String,
    /// Where crawling starts for this rule.
    pub abs_root_url: String,
    pub labels: Vec<Selector>,
}

/// One label: a name and the CSS selector whose matches give its value.
pub struct Selector {
    /// `Some(true)`: every match, as a list; otherwise the first match.
    pub list: Option<bool>,
    pub name: String,
    pub selector: String,
}

/// The runtime settings.
pub struct Config {
    pub db_path: String,
    pub save_path: String,
    pub filter_path: String,
    pub chunk_size: usize,
    pub filter_bytes: usize,
    pub filter_expected_entries: usize,
    pub filter_checkpoint_secs: u64,
    pub workers: usize,
    pub worker_check_ms: u64,
    pub saver_check_secs: u64,
    pub label_map: String,
}

/// The value of one label.
#[derive(Debug, Clone, PartialEq, Eq)]
pub enum SelectorValue {
    Str(String),
    Arr(Vec<String>),
}

/// The value of a label as plain sequences.
pub enum LabelValue {
    Str(Seq<char>),
    Arr(Seq<Seq<char>>),
}

impl SelectorValue {
    pub open spec fn value(&self) -> LabelValue {
        match self {
            SelectorValue::Str(s) => LabelValue::Str(s@),
            SelectorValue::Arr(v) => LabelValue::Arr(v@.map_values(|s: String| s@)),
        }
    }
}

/// One saved record: a page, its training input and its labels. A later
/// entry of `labels` for a name overrides an earlier one.
pub struct Save {
    pub url: String,
    pub raw: String,
    pub input: String,
    pub labels: Vec<(String, SelectorValue)>,
}

/// A rule of the label map with its path regex compiled.
pub struct Rule {
    pub path_match: Pattern,
    pub abs_root_url: String,
    pub labels: Vec<Selector>,
}

/// The label map with every regex compiled.
pub struct Rules {
    pub domain: String,
    /// The exclude regex and its `invert` flag.
    pub exclude: Option<(Pattern, bool)>,
    pub rules: Vec<Rule>,
}

pub enum ConfigError {
    /// The regex of the rule at this index does not compile.
    BadPathMatch(usize),
    /// The exclude regex does not compile.
    BadExclude,
}

impl Rules {
    /// Compiles every regex of `m`; the rules keep their order.
    pub fn compile(m: LabelMaps) -> (r: Result<Rules, ConfigError>)
        ensures
            r matches Ok(rs) ==> {
                &&& rs.domain@ == m.domain@
                &&& rs.rules@.len() == m.maps@.len()
                &&& forall|i: int| 0 <= i < m.maps@.len() ==> {
                    &&& (#[trigger] rs.rules@[i]).path_match.source() == m.maps@[i].path_match_re@
                    &&& rs.rules@[i].abs_root_url == m.maps@[i].abs_root_url
                    &&& rs.rules@[i].labels == m.maps@[i].labels
                }
                &&& match m.path_exclude {
                    Some(e) => rs.exclude matches Some((p, inv)) && p.source() == e.re@ && inv == e.invert,
                    None => rs.exclude is None,
                }
            },
            r matches Err(ConfigError::BadExclude) ==> m.path_exclude matches Some(e) && !regex_valid(e.re@),
            r matches Err(ConfigError::BadPathMatch(i)) ==> i < m.maps@.len() && !regex_valid(m.maps@[i as int].path_match_re@),
            r is Err <==> (
                (m.path_exclude matches Some(e) && !regex_valid(e.re@))
                || exists|i: int| 0 <= i < m.maps@.len() && !regex_valid(#[trigger] m.maps@[i].path_match_re@)
            ),
    {
        let LabelMaps { domain, path_exclude, headers: _, maps } = m;
        let exclude = match path_exclude {
            Some(e) => match Pattern::new(e.re.as_str()) {
                Some(p) => Some((p, e.invert)),
                None => {
                    return Err(ConfigError::BadExclude);
                },
            },
            None => None,
        };
        let mut rules: Vec<Rule> = Vec::new();
        let mut rest = maps;
        let ghost orig = rest@;
        assert(orig == m.maps@);
        let n = rest.len();
        let mut i: usize = 0;
        while i < n
            invariant
                i <= n,
                n == orig.len(),
                orig == m.maps@,
                rest@ == orig.subrange(i as int, n as int),
                rules@.len() == i,
                forall|k: int| 0 <= k < i ==> {
                    &&& (#[trigger] rules@[k]).path_match.source() == orig[k].path_match_re@
                    &&& rules@[k].abs_root_url == orig[k].abs_root_url
                    &&& rules@[k].labels == orig[k].labels
                },
                forall|k: int| 0 <= k < i ==> regex_valid(#[trigger] orig[k].path_match_re@),
            decreases n - i,
        {
            let map = rest.remove(0);
            assert(map == orig[i as int]);
            assert(rest@ =~= orig.subrange(i + 1, n as int));
            let LabelMap { path_match_re, abs_root_url, labels } = map;
            match Pattern::new(path_match_re.as_str()) {
                Some(p) => {
                    rules.push(Rule { path_match: p, abs_root_url, labels });
                },
                None => {
                    assert(!regex_valid(m.maps@[i as int].path_match_re@));
                    return Err(ConfigError::BadPathMatch(i));
                },
            }
            i = i + 1;
        }
        Ok(Rules { domain, exclude, rules })
    }
}

} // verus!
