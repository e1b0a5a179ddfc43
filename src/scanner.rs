use vstd::prelude::*;
use vstd::string::*;
use crate::grammar::{Grammar, CategoryModel, grammar_hit, grammar_hit_from, rules_hit, emit};
use crate::pattern::rule_hit;
use crate::token::{Token, TokenModel, tokens_model};

verus! {

/// The characters with the Unicode White_Space property.
pub open spec fn is_white_space(c: char) -> bool {
    ||| '\u{9}' <= c <= '\u{d}'
    ||| c == ' '
    ||| c == '\u{85}'
    ||| c == '\u{a0}'
    ||| c == '\u{1680}'
    ||| '\u{2000}' <= c <= '\u{200a}'
    ||| c == '\u{2028}'
    ||| c == '\u{2029}'
    ||| c == '\u{202f}'
    ||| c == '\u{205f}'
    ||| c == '\u{3000}'
}

/// `s` without its leading white space.
pub open spec fn strip_white(s: Seq<char>) -> Seq<char>
    decreases s.len(),
{
    if s.len() > 0 && is_white_space(s[0]) {
        strip_white(s.drop_first())
    } else {
        s
    }
}

/// Relies on str::trim_start: removes the leading characters that have the
/// Unicode White_Space property.
#[verifier::external_body]
fn trim_start(s: &str) -> (r: &str)
    ensures
        r@ == strip_white(s@),
{
    s.trim_start()
}

/// Stripping white space removes a prefix made of white space alone.
pub proof fn lemma_strip_white(s: Seq<char>)
    ensures
        strip_white(s).len() <= s.len(),
        s == s.take(s.len() - strip_white(s).len()) + strip_white(s),
        forall|k: int| 0 <= k < s.len() - strip_white(s).len() ==> is_white_space(#[trigger] s[k]),
        strip_white(s).len() > 0 ==> !is_white_space(strip_white(s)[0]),
    decreases s.len(),
{
    if s.len() > 0 && is_white_space(s[0]) {
        lemma_strip_white(s.drop_first());
        let t = s.drop_first();
        assert(s.take(s.len() - strip_white(s).len()) =~= seq![s[0]] + t.take(t.len() - strip_white(t).len()));
        assert(s =~= seq![s[0]] + t);
        assert(s =~= s.take(s.len() - strip_white(s).len()) + strip_white(s));
        assert forall|k: int| 0 <= k < s.len() - strip_white(s).len() implies is_white_space(#[trigger] s[k]) by {
            if k > 0 {
                assert(s[k] == t[k - 1]);
            }
        }
    } else {
        assert(s =~= s.take(0) + s);
    }
}

/// A hit of a rule list is a non-empty prefix of the text.
pub proof fn lemma_rules_hit_prefix(patterns: Seq<Seq<char>>, text: Seq<char>, j: int)
    ensures
        rules_hit(patterns, text, j) matches Some(lexeme) ==> {
            &&& 0 < lexeme.len() <= text.len()
            &&& text.take(lexeme.len() as int) == lexeme
        },
    decreases patterns.len() - j,
{
    if 0 <= j < patterns.len() && rule_hit(patterns[j], text) is None {
        lemma_rules_hit_prefix(patterns, text, j + 1);
    }
}

/// A hit of a grammar is a non-empty prefix of the text.
pub proof fn lemma_grammar_hit_prefix(g: Seq<CategoryModel>, text: Seq<char>, i: int)
    ensures
        grammar_hit_from(g, text, i) matches Some((class, lexeme)) ==> {
            &&& 0 < lexeme.len() <= text.len()
            &&& text.take(lexeme.len() as int) == lexeme
        },
    decreases g.len() - i,
{
    if 0 <= i < g.len() {
        lemma_rules_hit_prefix(g[i].patterns, text, 0);
        lemma_grammar_hit_prefix(g, text, i + 1);
    }
}

/// The outcome of scanning `text` with grammar `g`: the tokens in source
/// order, or the unconsumed remainder at which no rule hits.
pub open spec fn scan(g: Seq<CategoryModel>, text: Seq<char>) -> Result<Seq<TokenModel>, Seq<char>>
    decreases text.len(),
    via scan_decreases
{
    let rest = strip_white(text);
    if rest.len() == 0 {
        Ok(seq![])
    } else {
        match grammar_hit(g, rest) {
            None => Err(rest),
            Some((class, lexeme)) => match scan(g, rest.skip(lexeme.len() as int)) {
                Ok(ts) => Ok(seq![emit(class, lexeme)] + ts),
                Err(e) => Err(e),
            },
        }
    }
}

#[via_fn]
proof fn scan_decreases(g: Seq<CategoryModel>, text: Seq<char>) {
    lemma_strip_white(text);
    lemma_grammar_hit_prefix(g, strip_white(text), 0);
}

/// `ts` followed by the outcome `rest`.
pub open spec fn after_tokens(ts: Seq<TokenModel>, rest: Result<Seq<TokenModel>, Seq<char>>) -> Result<Seq<TokenModel>, Seq<char>> {
    match rest {
        Ok(us) => Ok(ts + us),
        Err(e) => Err(e),
    }
}

/// A failed scan: no category matches at `offset`, the character position in
/// the source text where `remainder` begins.
#[derive(Debug)]
pub struct ScanError {
    pub offset: usize,
    pub remainder: String,
}

/// Scans `text` with `grammar`: repeatedly strips leading white space, and
/// emits the token of the winning category at the cursor, until the text is
/// used up. Fails, with no tokens, at the first position where no rule hits.
pub fn lex(text: &str, grammar: &Grammar) -> (r: Result<Vec<Token>, ScanError>)
    ensures
        match r {
            Ok(tokens) => scan(grammar@, text@) == Ok::<Seq<TokenModel>, Seq<char>>(tokens_model(tokens@)),
            Err(e) => {
                &&& scan(grammar@, text@) == Err::<Seq<TokenModel>, Seq<char>>(e.remainder@)
                &&& e.offset == text@.len() - e.remainder@.len()
            },
        },
{
    let mut tokens: Vec<Token> = Vec::new();
    let mut cursor: String = text.to_owned();
    proof {
        assert(tokens_model(tokens@) =~= Seq::<TokenModel>::empty());
        assert(after_tokens(tokens_model(tokens@), scan(grammar@, cursor@)) =~= scan(grammar@, text@));
    }
    loop
        invariant
            cursor@.len() <= text@.len(),
            scan(grammar@, text@) == after_tokens(tokens_model(tokens@), scan(grammar@, cursor@)),
        decreases cursor@.len(),
    {
        let rest = trim_start(cursor.as_str());
        proof {
            lemma_strip_white(cursor@);
        }
        if rest.is_empty() {
            proof {
                assert(tokens_model(tokens@) + seq![] =~= tokens_model(tokens@));
            }
            return Ok(tokens);
        }
        match grammar.first_hit(rest) {
            None => {
                let remainder = rest.to_owned();
                let offset = text.unicode_len() - remainder.as_str().unicode_len();
                return Err(ScanError { offset, remainder });
            },
            Some((token, after)) => {
                proof {
                    lemma_grammar_hit_prefix(grammar@, rest@, 0);
                    let (class, lexeme) = grammar_hit(grammar@, rest@)->Some_0;
                    assert(after@ =~= rest@.skip(lexeme.len() as int));
                    let old_model = tokens_model(tokens@);
                    assert(tokens_model(tokens@.push(token)) =~= old_model + seq![token@]);
                    match scan(grammar@, after@) {
                        Ok(us) => {
                            assert(old_model + (seq![token@] + us) =~= old_model + seq![token@] + us);
                        },
                        Err(_) => {},
                    }
                }
                tokens.push(token);
                cursor = after;
            },
        }
    }
}

} // verus!
