use vstd::prelude::*;

verus! {

#[verifier::external_type_specification]
#[verifier::external_body]
pub struct ExRegex(regex::Regex);

/// Whether the regex crate accepts `pattern` as a regular expression.
pub uninterp spec fn pattern_compiles(pattern: Seq<char>) -> bool;

/// Whether the regular expression `pattern` matches somewhere in `text`.
pub uninterp spec fn pattern_matches(pattern: Seq<char>, text: Seq<char>) -> bool;

/// A regular expression together with the pattern it was compiled from.
pub struct CompiledPattern {
    source: String,
    regex: regex::Regex,
}

impl CompiledPattern {
    pub closed spec fn source(&self) -> Seq<char> {
        self.source@
    }
}

/// Relies on `regex::Regex::new`: it succeeds exactly on the patterns that the
/// crate accepts, a fact of the pattern alone.
#[verifier::external_body]
fn compile_pattern(pattern: &str) -> (r: Option<CompiledPattern>)
    ensures
        r is Some <==> pattern_compiles(pattern@),
        r matches Some(c) ==> c.source() == pattern@,
{
    match regex::Regex::new(pattern) {
        Ok(regex) => Some(CompiledPattern { source: pattern.to_string(), regex }),
        Err(_) => None,
    }
}

/// Relies on `regex::Regex::is_match`: whether the compiled pattern matches
/// somewhere in `text`, a fact of the pattern and the text alone.
#[verifier::external_body]
fn pattern_is_match(pattern: &CompiledPattern, text: &str) -> (r: bool)
    ensures
        r == pattern_matches(pattern.source(), text@),
{
    pattern.regex.is_match(text)
}

/// Whether some pattern of `patterns` compiles and matches the title or the
/// URL.
pub open spec fn excluded_by(patterns: Seq<String>, title: Seq<char>, url: Seq<char>) -> bool {
    exists|i: int|
        0 <= i < patterns.len() && pattern_compiles(#[trigger] patterns[i]@) && (pattern_matches(
            patterns[i]@,
            title,
        ) || pattern_matches(patterns[i]@, url))
}

/// Which pages the crawl leaves out.
#[derive(Debug, Clone)]
pub struct Exclusions {
    /// Regular expressions; a page whose title or URL one of them matches is
    /// excluded. A pattern that does not compile excludes nothing.
    pub page_patterns: Vec<String>,
}

impl Default for Exclusions {
    fn default() -> (r: Exclusions)
        ensures
            r.page_patterns@.len() == 0,
    {
        Exclusions { page_patterns: Vec::new() }
    }
}

/// The crawl's settings.
#[derive(Debug, Clone)]
pub struct Config {
    pub exclusions: Exclusions,
}

impl Default for Config {
    fn default() -> (r: Config)
        ensures
            r.exclusions.page_patterns@.len() == 0,
    {
        Config { exclusions: Exclusions::default() }
    }
}

impl Config {
    /// Whether a page with this title and URL is excluded: some configured
    /// pattern compiles and matches either of them.
    pub fn should_exclude_page(&self, page_title: &str, page_url: &str) -> (r: bool)
        ensures
            r == excluded_by(self.exclusions.page_patterns@, page_title@, page_url@),
    {
        let patterns = &self.exclusions.page_patterns;
        let mut i: usize = 0;
        while i < patterns.len()
            invariant
                i <= patterns@.len(),
                patterns@ == self.exclusions.page_patterns@,
                forall|k: int|
                    0 <= k < i ==> !(pattern_compiles(#[trigger] patterns@[k]@) && (
                    pattern_matches(patterns@[k]@, page_title@) || pattern_matches(
                        patterns@[k]@,
                        page_url@,
                    ))),
            decreases patterns@.len() - i,
        {
            match compile_pattern(patterns[i].as_str()) {
                Some(compiled) => {
                    if pattern_is_match(&compiled, page_title) || pattern_is_match(
                        &compiled,
                        page_url,
                    ) {
                        assert(pattern_compiles(patterns@[i as int]@));
                        return true;
                    }
                },
                None => {},
            }
            i = i + 1;
        }
        false
    }
}

} // verus!
