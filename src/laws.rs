use vstd::prelude::*;
use crate::grammar::{CategoryModel, emit, grammar_hit, grammar_hit_from, rules_hit};
use crate::pattern::rule_hit;
use crate::scanner::{scan, strip_white, is_white_space, lemma_strip_white, lemma_grammar_hit_prefix};
use crate::token::TokenModel;

verus! {

/// Where one token came from: the white space skipped before it, its lexeme,
/// and the token emitted.
pub struct Span {
    pub gap: Seq<char>,
    pub lexeme: Seq<char>,
    pub token: TokenModel,
}

/// The spans of a scan of `text` with `g`, in order, and the white space after
/// the last lexeme. Meaningful where the scan succeeds.
pub open spec fn layout(g: Seq<CategoryModel>, text: Seq<char>) -> (Seq<Span>, Seq<char>)
    decreases text.len(),
    via layout_decreases
{
    let rest = strip_white(text);
    let gap = text.take(text.len() - rest.len());
    if rest.len() == 0 {
        (seq![], gap)
    } else {
        match grammar_hit(g, rest) {
            None => (seq![], text),
            Some((class, lexeme)) => {
                let (spans, tail) = layout(g, rest.skip(lexeme.len() as int));
                (seq![Span { gap, lexeme, token: emit(class, lexeme) }] + spans, tail)
            },
        }
    }
}

#[via_fn]
proof fn layout_decreases(g: Seq<CategoryModel>, text: Seq<char>) {
    lemma_strip_white(text);
    lemma_grammar_hit_prefix(g, strip_white(text), 0);
}

/// The text that `spans` account for: each gap followed by its lexeme.
pub open spec fn joined(spans: Seq<Span>) -> Seq<char>
    decreases spans.len(),
{
    if spans.len() == 0 {
        seq![]
    } else {
        spans[0].gap + spans[0].lexeme + joined(spans.drop_first())
    }
}

/// The number of characters that `spans` account for.
pub open spec fn consumed(spans: Seq<Span>) -> int
    decreases spans.len(),
{
    if spans.len() == 0 {
        0
    } else {
        spans[0].gap.len() + spans[0].lexeme.len() + consumed(spans.drop_first())
    }
}

/// The position in the source text at which the lexeme of `spans[k]` begins.
pub open spec fn lexeme_start(spans: Seq<Span>, k: int) -> int {
    (joined(spans.take(k)).len() + spans[k].gap.len()) as int
}

/// Whether every character of `s` is white space.
pub open spec fn all_white(s: Seq<char>) -> bool {
    forall|k: int| 0 <= k < s.len() ==> is_white_space(#[trigger] s[k])
}

proof fn lemma_joined_len(spans: Seq<Span>)
    ensures
        joined(spans).len() == consumed(spans),
    decreases spans.len(),
{
    if spans.len() > 0 {
        lemma_joined_len(spans.drop_first());
    }
}

/// Coverage: a successful scan accounts for every character of the input.
/// Its spans, each white space followed by a lexeme, and then the trailing
/// white space, put back together give the input exactly; so the lengths of
/// the lexemes and of the white space skipped add up to the input's length.
/// Each span gives one token, in order.
pub proof fn lemma_scan_covers_input(g: Seq<CategoryModel>, text: Seq<char>)
    requires
        scan(g, text) is Ok,
    ensures
        joined(layout(g, text).0) + layout(g, text).1 == text,
        consumed(layout(g, text).0) + layout(g, text).1.len() == text.len(),
        all_white(layout(g, text).1),
        forall|k: int| 0 <= k < layout(g, text).0.len() ==> all_white(#[trigger] layout(g, text).0[k].gap),
        scan(g, text)->Ok_0 == layout(g, text).0.map_values(|s: Span| s.token),
    decreases text.len(),
{
    let rest = strip_white(text);
    lemma_strip_white(text);
    let gap = text.take(text.len() - rest.len());
    let (spans, tail) = layout(g, text);
    if rest.len() == 0 {
        assert(joined(spans) + tail =~= text);
        assert(scan(g, text)->Ok_0 =~= spans.map_values(|s: Span| s.token));
    } else {
        let (class, lexeme) = grammar_hit(g, rest)->Some_0;
        lemma_grammar_hit_prefix(g, rest, 0);
        let next = rest.skip(lexeme.len() as int);
        lemma_scan_covers_input(g, next);
        let (more, tail2) = layout(g, next);
        assert(spans.drop_first() =~= more);
        assert(rest =~= lexeme + next);
        assert(joined(spans) + tail =~= gap + lexeme + (joined(more) + tail2));
        assert(joined(spans) + tail =~= text);
        lemma_joined_len(spans);
        assert forall|k: int| 0 <= k < spans.len() implies all_white(#[trigger] spans[k].gap) by {
            if k > 0 {
                assert(spans[k] == more[k - 1]);
            }
        }
        assert(scan(g, text)->Ok_0 =~= spans.map_values(|s: Span| s.token));
    }
}

proof fn lemma_joined_take(spans: Seq<Span>, k: int)
    requires
        0 <= k < spans.len(),
    ensures
        joined(spans.take(k + 1)) == joined(spans.take(k)) + spans[k].gap + spans[k].lexeme,
    decreases k,
{
    if k > 0 {
        lemma_joined_take(spans.drop_first(), k - 1);
        assert(spans.take(k + 1).drop_first() =~= spans.drop_first().take(k));
        assert(spans.take(k).drop_first() =~= spans.drop_first().take(k - 1));
    } else {
        assert(spans.take(1).drop_first() =~= Seq::<Span>::empty());
        assert(spans.take(0) =~= Seq::<Span>::empty());
    }
}

proof fn lemma_joined_prefix(spans: Seq<Span>, k: int, text: Seq<char>)
    requires
        0 <= k <= spans.len(),
        joined(spans) + text.skip(joined(spans).len() as int) == text,
        joined(spans).len() <= text.len(),
    ensures
        joined(spans.take(k)).len() <= joined(spans).len(),
        text.take(joined(spans.take(k)).len() as int) == joined(spans.take(k)),
    decreases spans.len() - k,
{
    if k < spans.len() {
        lemma_joined_prefix(spans, k + 1, text);
        lemma_joined_take(spans, k);
        let a = joined(spans.take(k));
        let b = joined(spans.take(k + 1));
        assert(b == a + spans[k].gap + spans[k].lexeme);
        assert(text.take(a.len() as int) =~= b.take(a.len() as int));
    } else {
        assert(spans.take(k) =~= spans);
        assert(text.take(joined(spans).len() as int) =~= joined(spans));
    }
}

proof fn lemma_joined_take_grows(spans: Seq<Span>, k: int, m: int)
    requires
        0 <= k <= m <= spans.len(),
    ensures
        joined(spans.take(k)).len() <= joined(spans.take(m)).len(),
    decreases m - k,
{
    if k < m {
        lemma_joined_take(spans, m - 1);
        lemma_joined_take_grows(spans, k, m - 1);
    }
}

/// Source order: the token at index `k1` comes from a lexeme that ends at or
/// before the start of the lexeme of any later token `k2`, and each lexeme
/// stands in the input at its position.
pub proof fn lemma_scan_keeps_source_order(g: Seq<CategoryModel>, text: Seq<char>, k1: int, k2: int)
    requires
        scan(g, text) is Ok,
        0 <= k1 < k2 < scan(g, text)->Ok_0.len(),
    ensures
        scan(g, text)->Ok_0[k1] == layout(g, text).0[k1].token,
        scan(g, text)->Ok_0[k2] == layout(g, text).0[k2].token,
        lexeme_start(layout(g, text).0, k1) + layout(g, text).0[k1].lexeme.len() <= lexeme_start(layout(g, text).0, k2),
        text.subrange(
            lexeme_start(layout(g, text).0, k1),
            lexeme_start(layout(g, text).0, k1) + layout(g, text).0[k1].lexeme.len(),
        ) == layout(g, text).0[k1].lexeme,
        text.subrange(
            lexeme_start(layout(g, text).0, k2),
            lexeme_start(layout(g, text).0, k2) + layout(g, text).0[k2].lexeme.len(),
        ) == layout(g, text).0[k2].lexeme,
{
    lemma_scan_covers_input(g, text);
    let (spans, tail) = layout(g, text);
    assert(scan(g, text)->Ok_0[k1] == spans.map_values(|s: Span| s.token)[k1]);
    assert(scan(g, text)->Ok_0[k2] == spans.map_values(|s: Span| s.token)[k2]);
    assert(joined(spans) + text.skip(joined(spans).len() as int) =~= text) by {
        assert(text.skip(joined(spans).len() as int) =~= tail);
    }
    lemma_joined_prefix(spans, k1 + 1, text);
    lemma_joined_prefix(spans, k2, text);
    lemma_joined_prefix(spans, k2 + 1, text);
    lemma_joined_take(spans, k1);
    lemma_joined_take(spans, k2);
    lemma_joined_prefix(spans, k1, text);
    let a1 = joined(spans.take(k1));
    let b1 = joined(spans.take(k1 + 1));
    let a2 = joined(spans.take(k2));
    let b2 = joined(spans.take(k2 + 1));
    lemma_joined_take_grows(spans, k1 + 1, k2);
    let s1 = (a1.len() + spans[k1].gap.len()) as int;
    let s2 = (a2.len() + spans[k2].gap.len()) as int;
    assert(text.subrange(s1, s1 + spans[k1].lexeme.len() as int) =~= b1.subrange(s1, s1 + spans[k1].lexeme.len() as int));
    assert(text.subrange(s2, s2 + spans[k2].lexeme.len() as int) =~= b2.subrange(s2, s2 + spans[k2].lexeme.len() as int));
}

/// Determinism: scanning the same text with the same grammar gives the same
/// outcome.
pub proof fn lemma_scan_deterministic(g: Seq<CategoryModel>, text1: Seq<char>, text2: Seq<char>)
    requires
        text1 == text2,
    ensures
        scan(g, text1) == scan(g, text2),
{
}

/// Priority by table order: when rule `j` of category `i` hits at the start of
/// `text` and no rule before it (every rule of an earlier category, and the
/// earlier rules of category `i`) does, category `i` wins with that rule's
/// lexeme, whatever later rules would also match.
pub proof fn lemma_first_match_wins(g: Seq<CategoryModel>, text: Seq<char>, i: int, j: int)
    requires
        0 <= i < g.len(),
        0 <= j < g[i].patterns.len(),
        rule_hit(g[i].patterns[j], text) is Some,
        forall|a: int, b: int|
            0 <= a < i && 0 <= b < g[a].patterns.len() ==> rule_hit(#[trigger] g[a].patterns[b], text) is None,
        forall|b: int| 0 <= b < j ==> rule_hit(#[trigger] g[i].patterns[b], text) is None,
    ensures
        grammar_hit(g, text) == Some((g[i].class, rule_hit(g[i].patterns[j], text)->Some_0)),
{
    lemma_rules_hit_at(g[i].patterns, text, 0, j);
    lemma_grammar_hit_skips(g, text, 0, i);
}

proof fn lemma_rules_hit_at(patterns: Seq<Seq<char>>, text: Seq<char>, from: int, j: int)
    requires
        0 <= from <= j < patterns.len(),
        rule_hit(patterns[j], text) is Some,
        forall|b: int| 0 <= b < j ==> rule_hit(#[trigger] patterns[b], text) is None,
    ensures
        rules_hit(patterns, text, from) == rule_hit(patterns[j], text),
    decreases j - from,
{
    if from < j {
        lemma_rules_hit_at(patterns, text, from + 1, j);
    }
}

proof fn lemma_rules_miss(patterns: Seq<Seq<char>>, text: Seq<char>, from: int)
    requires
        0 <= from,
        forall|b: int| 0 <= b < patterns.len() ==> rule_hit(#[trigger] patterns[b], text) is None,
    ensures
        rules_hit(patterns, text, from) is None,
    decreases patterns.len() - from,
{
    if from < patterns.len() {
        lemma_rules_miss(patterns, text, from + 1);
    }
}

proof fn lemma_grammar_hit_skips(g: Seq<CategoryModel>, text: Seq<char>, from: int, i: int)
    requires
        0 <= from <= i < g.len(),
        forall|a: int, b: int|
            0 <= a < i && 0 <= b < g[a].patterns.len() ==> rule_hit(#[trigger] g[a].patterns[b], text) is None,
        rules_hit(g[i].patterns, text, 0) is Some,
    ensures
        grammar_hit_from(g, text, from) == Some((g[i].class, rules_hit(g[i].patterns, text, 0)->Some_0)),
    decreases i - from,
{
    if from < i {
        assert forall|b: int| 0 <= b < g[from].patterns.len() implies rule_hit(#[trigger] g[from].patterns[b], text) is None by {
        }
        lemma_rules_miss(g[from].patterns, text, 0);
        lemma_grammar_hit_skips(g, text, from + 1, i);
    }
}

/// Failure on unmatched input: a scan fails exactly at a non-empty suffix of
/// the input that starts with no white space and at which no rule of any
/// category hits; and when nothing hits once the leading white space is
/// skipped, the scan fails right there, with no token.
pub proof fn lemma_scan_fails_where_nothing_matches(g: Seq<CategoryModel>, text: Seq<char>)
    ensures
        scan(g, text) matches Err(rest) ==> {
            &&& 0 < rest.len() <= text.len()
            &&& text.skip(text.len() - rest.len()) == rest
            &&& !is_white_space(rest[0])
            &&& grammar_hit(g, rest) is None
        },
        strip_white(text).len() > 0 && grammar_hit(g, strip_white(text)) is None ==> scan(g, text) == Err::<
            Seq<TokenModel>,
            Seq<char>,
        >(strip_white(text)),
    decreases text.len(),
{
    let rest = strip_white(text);
    lemma_strip_white(text);
    if rest.len() > 0 {
        match grammar_hit(g, rest) {
            None => {
                assert(text.skip(text.len() - rest.len()) =~= rest);
            },
            Some((class, lexeme)) => {
                lemma_grammar_hit_prefix(g, rest, 0);
                let next = rest.skip(lexeme.len() as int);
                lemma_scan_fails_where_nothing_matches(g, next);
                if let Err(r) = scan(g, text) {
                    assert(text.skip(text.len() - r.len()) =~= next.skip(next.len() - r.len()));
                }
            },
        }
    }
}

} // verus!
