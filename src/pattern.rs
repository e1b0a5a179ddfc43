use vstd::prelude::*;

verus! {

#[verifier::external_type_specification]
#[verifier::external_body]
pub struct ExRegex(regex::Regex);

#[verifier::external_type_specification]
#[verifier::external_body]
pub struct ExRegexError(regex::Error);

/// Whether the regex engine accepts `pattern` (its syntax, and the default size limit).
pub uninterp spec fn regex_compiles(pattern: Seq<char>) -> bool;

/// The leftmost-first match of `pattern` in `haystack`, if any: the text before
/// the match, and the matched text.
pub uninterp spec fn leftmost_match(pattern: Seq<char>, haystack: Seq<char>) -> Option<(Seq<char>, Seq<char>)>;

/// Relies on regex::Regex::new: compiles a pattern with the default options, so
/// whether it succeeds depends on the pattern alone.
#[verifier::external_body]
fn compile(pattern: &str) -> (r: Result<regex::Regex, regex::Error>)
    ensures
        r is Ok <==> regex_compiles(pattern@),
{
    regex::Regex::new(pattern)
}

/// Relies on regex::Regex::find: the leftmost-first match of the rule's compiled
/// pattern in `haystack`, handed back as the haystack cut at the match's two
/// offsets (before, match, after).
#[verifier::external_body]
fn find_leftmost(rule: &Rule, haystack: &str) -> (r: Option<(String, String, String)>)
    ensures
        match r {
            None => leftmost_match(rule@, haystack@) is None,
            Some((before, matched, after)) => {
                &&& leftmost_match(rule@, haystack@) == Some((before@, matched@))
                &&& haystack@ == before@ + matched@ + after@
            },
        },
{
    match rule.regex.find(haystack) {
        Some(m) => Some((
            haystack[..m.start()].to_string(),
            m.as_str().to_string(),
            haystack[m.end()..].to_string(),
        )),
        None => None,
    }
}

/// What a search result says of a match at the start of the searched text:
/// the lexeme, where the match starts at the first character and is not empty.
pub open spec fn anchored_hit(found: Option<(Seq<char>, Seq<char>)>) -> Option<Seq<char>> {
    match found {
        Some((before, lexeme)) => {
            if before.len() == 0 && lexeme.len() > 0 {
                Some(lexeme)
            } else {
                None
            }
        },
        None => None,
    }
}

/// A match rule's verdict on `text`: the non-empty lexeme that the pattern
/// matches starting exactly at the first character of `text`, if any.
pub open spec fn rule_hit(pattern: Seq<char>, text: Seq<char>) -> Option<Seq<char>> {
    match anchored_hit(leftmost_match(pattern, text)) {
        Some(lexeme) => {
            if lexeme.len() <= text.len() && text.take(lexeme.len() as int) == lexeme {
                Some(lexeme)
            } else {
                None
            }
        },
        None => None,
    }
}

/// Reads a search result (text before the match, the match, text after it)
/// as a hit at the start of the searched text: the lexeme and what follows
/// it, where the match starts at the first character and is not empty.
pub fn hit_at_start(found: Option<(String, String, String)>) -> (r: Option<(String, String)>)
    ensures
        match found {
            Some((before, matched, after)) => r == if before@.len() == 0 && matched@.len() > 0 {
                Some((matched, after))
            } else {
                None
            },
            None => r is None,
        },
{
    match found {
        Some((before, matched, after)) => {
            if !before.as_str().is_empty() || matched.as_str().is_empty() {
                None
            } else {
                Some((matched, after))
            }
        },
        None => None,
    }
}

/// A pattern that the regex engine rejected.
#[derive(Debug)]
pub struct PatternError {
    pub pattern: String,
}

/// A match rule: a pattern, compiled once. Its model is the pattern's text.
/// Only `Rule::new` builds one, so `regex` is always what `source` compiles
/// to; `find_leftmost` relies on that.
pub struct Rule {
    source: String,
    regex: regex::Regex,
}

impl View for Rule {
    type V = Seq<char>;

    closed spec fn view(&self) -> Seq<char> {
        self.source@
    }
}

impl Rule {
    /// Compiles `pattern`; fails exactly when the regex engine rejects it.
    pub fn new(pattern: &str) -> (r: Result<Rule, PatternError>)
        ensures
            r is Ok <==> regex_compiles(pattern@),
            r matches Ok(rule) ==> rule@ == pattern@,
            r matches Err(e) ==> e.pattern@ == pattern@,
    {
        match compile(pattern) {
            Ok(regex) => {
                let rule = Rule { source: pattern.to_string(), regex };
                Ok(rule)
            },
            Err(_) => Err(PatternError { pattern: pattern.to_string() }),
        }
    }

    /// The text of this rule's pattern.
    pub fn pattern(&self) -> (r: &str)
        ensures
            r@ == self@,
    {
        self.source.as_str()
    }

    /// Matches this rule at the start of `text`: on a hit, the lexeme and the
    /// text that follows it.
    pub fn match_at_start(&self, text: &str) -> (r: Option<(String, String)>)
        ensures
            match r {
                None => rule_hit(self@, text@) is None,
                Some((lexeme, rest)) => {
                    &&& rule_hit(self@, text@) == Some(lexeme@)
                    &&& text@ == lexeme@ + rest@
                },
            },
    {
        let found = find_leftmost(self, text);
        let ghost f = found;
        let r = hit_at_start(found);
        proof {
            if let Some((before, matched, after)) = f {
                if before@.len() == 0 && matched@.len() > 0 {
                    assert(text@.take(matched@.len() as int) =~= matched@);
                }
            }
        }
        r
    }
}

} // verus!
