use vstd::prelude::*;
use crate::pattern::{PatternError, Rule, regex_compiles, rule_hit};
use crate::token::{Token, TokenModel};

verus! {

/// What a category emits: a token carrying the lexeme (identifiers, constants,
/// keywords), or a copy of a pre-built token (punctuation, comments).
pub enum TokenClass {
    Identifier,
    Constant,
    Keyword,
    Fixed(Token),
}

/// The model of a token class.
pub enum ClassModel {
    Identifier,
    Constant,
    Keyword,
    Fixed(TokenModel),
}

impl View for TokenClass {
    type V = ClassModel;

    open spec fn view(&self) -> ClassModel {
        match self {
            TokenClass::Identifier => ClassModel::Identifier,
            TokenClass::Constant => ClassModel::Constant,
            TokenClass::Keyword => ClassModel::Keyword,
            TokenClass::Fixed(t) => ClassModel::Fixed(t@),
        }
    }
}

/// The token that a category of class `class` emits for `lexeme`.
pub open spec fn emit(class: ClassModel, lexeme: Seq<char>) -> TokenModel {
    match class {
        ClassModel::Identifier => TokenModel::Identifier(lexeme),
        ClassModel::Constant => TokenModel::Constant(lexeme),
        ClassModel::Keyword => TokenModel::Keyword(lexeme),
        ClassModel::Fixed(t) => t,
    }
}

/// The model of a category: its class and its patterns, in order.
pub struct CategoryModel {
    pub class: ClassModel,
    pub patterns: Seq<Seq<char>>,
}

/// A token category: a class and an ordered, non-empty list of match rules.
pub struct Category {
    class: TokenClass,
    rules: Vec<Rule>,
}

impl View for Category {
    type V = CategoryModel;

    closed spec fn view(&self) -> CategoryModel {
        CategoryModel { class: self.class@, patterns: self.rules@.map_values(|r: Rule| r@) }
    }
}

/// The first of `patterns[j..]` that hits at the start of `text`, and its lexeme.
pub open spec fn rules_hit(patterns: Seq<Seq<char>>, text: Seq<char>, j: int) -> Option<Seq<char>>
    decreases patterns.len() - j,
{
    if j < 0 || j >= patterns.len() {
        None
    } else {
        match rule_hit(patterns[j], text) {
            Some(lexeme) => Some(lexeme),
            None => rules_hit(patterns, text, j + 1),
        }
    }
}

/// The first category of `g[i..]` with a rule that hits at the start of
/// `text`: its class, and the lexeme of its first such rule.
pub open spec fn grammar_hit_from(g: Seq<CategoryModel>, text: Seq<char>, i: int) -> Option<(ClassModel, Seq<char>)>
    decreases g.len() - i,
{
    if i < 0 || i >= g.len() {
        None
    } else {
        match rules_hit(g[i].patterns, text, 0) {
            Some(lexeme) => Some((g[i].class, lexeme)),
            None => grammar_hit_from(g, text, i + 1),
        }
    }
}

/// The winner at the start of `text`: categories in table order, and within a
/// category its rules in order; the first rule that hits wins.
pub open spec fn grammar_hit(g: Seq<CategoryModel>, text: Seq<char>) -> Option<(ClassModel, Seq<char>)> {
    grammar_hit_from(g, text, 0)
}

/// The texts of a list of patterns.
pub open spec fn pattern_texts(patterns: Seq<&str>) -> Seq<Seq<char>> {
    patterns.map_values(|p: &str| p@)
}

impl Category {
    /// A category of class `class` with the given rules.
    pub fn new(class: TokenClass, rules: Vec<Rule>) -> (r: Category)
        requires
            rules@.len() > 0,
        ensures
            r@ == (CategoryModel { class: class@, patterns: rules@.map_values(|x: Rule| x@) }),
    {
        Category { class, rules }
    }

    /// A category of class `class` whose rules are `patterns`, compiled in
    /// order; fails on the first pattern that the regex engine rejects.
    pub fn compile(class: TokenClass, patterns: Vec<&str>) -> (r: Result<Category, PatternError>)
        requires
            patterns@.len() > 0,
        ensures
            r is Ok <==> forall|j: int| 0 <= j < patterns@.len() ==> regex_compiles(#[trigger] pattern_texts(patterns@)[j]),
            r matches Ok(c) ==> c@ == (CategoryModel { class: class@, patterns: pattern_texts(patterns@) }),
            r matches Err(e) ==> exists|j: int| 0 <= j < patterns@.len() && e.pattern@ == #[trigger] pattern_texts(patterns@)[j] && !regex_compiles(pattern_texts(patterns@)[j]),
    {
        let mut rules: Vec<Rule> = Vec::new();
        let mut j: usize = 0;
        while j < patterns.len()
            invariant
                j <= patterns@.len(),
                rules@.len() == j,
                forall|k: int| 0 <= k < j ==> regex_compiles(#[trigger] patterns@[k]@),
                forall|k: int| 0 <= k < j ==> #[trigger] rules@[k]@ == patterns@[k]@,
            decreases patterns@.len() - j,
        {
            match Rule::new(patterns[j]) {
                Ok(rule) => rules.push(rule),
                Err(e) => {
                    assert(pattern_texts(patterns@)[j as int] == patterns@[j as int]@);
                    return Err(e);
                },
            }
            j = j + 1;
        }
        assert(rules@.map_values(|x: Rule| x@) =~= pattern_texts(patterns@));
        Ok(Category::new(class, rules))
    }

    /// The token this category emits for `lexeme`.
    pub fn make_token(&self, lexeme: String) -> (t: Token)
        ensures
            t@ == emit(self@.class, lexeme@),
    {
        match &self.class {
            TokenClass::Identifier => Token::Identifier(lexeme),
            TokenClass::Constant => Token::Constant(lexeme),
            TokenClass::Keyword => Token::Keyword(lexeme),
            TokenClass::Fixed(t) => t.duplicate(),
        }
    }

    /// Tries the rules in order at the start of `text`: on the first hit, the
    /// lexeme and the text after it.
    pub fn match_at_start(&self, text: &str) -> (r: Option<(String, String)>)
        ensures
            match r {
                None => rules_hit(self@.patterns, text@, 0) is None,
                Some((lexeme, rest)) => {
                    &&& rules_hit(self@.patterns, text@, 0) == Some(lexeme@)
                    &&& text@ == lexeme@ + rest@
                },
            },
    {
        let ghost pats = self@.patterns;
        let mut j: usize = 0;
        while j < self.rules.len()
            invariant
                j <= self.rules@.len(),
                pats == self.rules@.map_values(|x: Rule| x@),
                rules_hit(pats, text@, 0) == rules_hit(pats, text@, j as int),
            decreases self.rules@.len() - j,
        {
            match self.rules[j].match_at_start(text) {
                Some((lexeme, rest)) => {
                    return Some((lexeme, rest));
                },
                None => {},
            }
            j = j + 1;
        }
        None
    }
}

/// The grammar table: token categories in priority order.
pub struct Grammar {
    categories: Vec<Category>,
}

impl View for Grammar {
    type V = Seq<CategoryModel>;

    closed spec fn view(&self) -> Seq<CategoryModel> {
        self.categories@.map_values(|c: Category| c@)
    }
}

impl Grammar {
    /// A grammar whose priority order is the order of `categories`.
    pub fn new(categories: Vec<Category>) -> (r: Grammar)
        ensures
            r@ == categories@.map_values(|c: Category| c@),
    {
        Grammar { categories }
    }

    /// The winning category at the start of `text`, if any: the token it
    /// emits and the text after its lexeme.
    pub fn first_hit(&self, text: &str) -> (r: Option<(Token, String)>)
        ensures
            match r {
                None => grammar_hit(self@, text@) is None,
                Some((token, rest)) => match grammar_hit(self@, text@) {
                    Some((class, lexeme)) => token@ == emit(class, lexeme) && text@ == lexeme + rest@,
                    None => false,
                },
            },
    {
        let ghost g = self@;
        let mut i: usize = 0;
        while i < self.categories.len()
            invariant
                i <= self.categories@.len(),
                g == self.categories@.map_values(|c: Category| c@),
                grammar_hit_from(g, text@, 0) == grammar_hit_from(g, text@, i as int),
            decreases self.categories@.len() - i,
        {
            let category = &self.categories[i];
            match category.match_at_start(text) {
                Some((lexeme, rest)) => {
                    let ghost l = lexeme@;
                    let token = category.make_token(lexeme);
                    assert(grammar_hit_from(g, text@, i as int) == Some((g[i as int].class, l)));
                    return Some((token, rest));
                },
                None => {},
            }
            i = i + 1;
        }
        None
    }
}

/// The default grammar: the keywords `int`, `void` and `return`, identifiers,
/// constants, the punctuation `(`, `)`, `{`, `}`, `;`, and line comments, in
/// that priority order. Keywords come before identifiers so that a keyword,
/// which the identifier rule also matches, is classified as a keyword. Every
/// rule is anchored at the cursor.
pub open spec fn default_grammar() -> Seq<CategoryModel> {
    seq![
        CategoryModel {
            class: ClassModel::Keyword,
            patterns: seq!["^int\\b"@, "^void\\b"@, "^return\\b"@],
        },
        CategoryModel { class: ClassModel::Identifier, patterns: seq!["^[a-zA-Z_]\\w*\\b"@] },
        CategoryModel { class: ClassModel::Constant, patterns: seq!["^[0-9]+\\b"@] },
        CategoryModel { class: ClassModel::Fixed(TokenModel::ParenthesisOpen), patterns: seq!["^\\("@] },
        CategoryModel { class: ClassModel::Fixed(TokenModel::ParenthesisClose), patterns: seq!["^\\)"@] },
        CategoryModel { class: ClassModel::Fixed(TokenModel::BraceOpen), patterns: seq!["^\\{"@] },
        CategoryModel { class: ClassModel::Fixed(TokenModel::BraceClose), patterns: seq!["^\\}"@] },
        CategoryModel { class: ClassModel::Fixed(TokenModel::Semicolon), patterns: seq!["^;"@] },
        CategoryModel { class: ClassModel::Fixed(TokenModel::Comment), patterns: seq!["^//.*"@] },
    ]
}

/// Whether the regex engine accepts every pattern of `g`.
pub open spec fn all_patterns_compile(g: Seq<CategoryModel>) -> bool {
    forall|i: int, j: int|
        0 <= i < g.len() && 0 <= j < g[i].patterns.len() ==> regex_compiles(#[trigger] g[i].patterns[j])
}

/// What compiling the patterns of `g[i]` tells of `g`.
proof fn lemma_compiled_category(g: Seq<CategoryModel>, i: int, r: Result<Category, PatternError>)
    requires
        0 <= i < g.len(),
        r is Ok <==> forall|j: int| 0 <= j < g[i].patterns.len() ==> regex_compiles(#[trigger] g[i].patterns[j]),
        r matches Ok(c) ==> c@.class == g[i].class && c@.patterns =~= g[i].patterns,
        r matches Err(e) ==> exists|j: int| 0 <= j < g[i].patterns.len() && !regex_compiles(#[trigger] g[i].patterns[j]),
    ensures
        r matches Ok(c) ==> c@ == g[i],
        r is Err ==> !all_patterns_compile(g),
{
    if r is Err {
        let j = choose|j: int| 0 <= j < g[i].patterns.len() && !regex_compiles(#[trigger] g[i].patterns[j]);
        assert(!regex_compiles(g[i].patterns[j]));
    }
}

/// Builds the default grammar table.
pub fn init_grammar() -> (r: Result<Grammar, PatternError>)
    ensures
        r is Ok <==> all_patterns_compile(default_grammar()),
        r matches Ok(g) ==> g@ == default_grammar(),
{
    let mut categories: Vec<Category> = Vec::new();
    let ghost g = default_grammar();
    let keyword_patterns = vec!["^int\\b", "^void\\b", "^return\\b"];
    assert(pattern_texts(keyword_patterns@) =~= g[0].patterns);
    let keyword = Category::compile(TokenClass::Keyword, keyword_patterns);
    let identifier_patterns = vec!["^[a-zA-Z_]\\w*\\b"];
    assert(pattern_texts(identifier_patterns@) =~= g[1].patterns);
    let identifier = Category::compile(TokenClass::Identifier, identifier_patterns);
    let constant_patterns = vec!["^[0-9]+\\b"];
    assert(pattern_texts(constant_patterns@) =~= g[2].patterns);
    let constant = Category::compile(TokenClass::Constant, constant_patterns);
    let open_paren_patterns = vec!["^\\("];
    assert(pattern_texts(open_paren_patterns@) =~= g[3].patterns);
    let open_paren = Category::compile(TokenClass::Fixed(Token::ParenthesisOpen), open_paren_patterns);
    let close_paren_patterns = vec!["^\\)"];
    assert(pattern_texts(close_paren_patterns@) =~= g[4].patterns);
    let close_paren = Category::compile(TokenClass::Fixed(Token::ParenthesisClose), close_paren_patterns);
    let open_brace_patterns = vec!["^\\{"];
    assert(pattern_texts(open_brace_patterns@) =~= g[5].patterns);
    let open_brace = Category::compile(TokenClass::Fixed(Token::BraceOpen), open_brace_patterns);
    let close_brace_patterns = vec!["^\\}"];
    assert(pattern_texts(close_brace_patterns@) =~= g[6].patterns);
    let close_brace = Category::compile(TokenClass::Fixed(Token::BraceClose), close_brace_patterns);
    let semicolon_patterns = vec!["^;"];
    assert(pattern_texts(semicolon_patterns@) =~= g[7].patterns);
    let semicolon = Category::compile(TokenClass::Fixed(Token::Semicolon), semicolon_patterns);
    let comment_patterns = vec!["^//.*"];
    assert(pattern_texts(comment_patterns@) =~= g[8].patterns);
    let comment = Category::compile(TokenClass::Fixed(Token::Comment), comment_patterns);
    proof {
        lemma_compiled_category(g, 0, keyword);
        lemma_compiled_category(g, 1, identifier);
        lemma_compiled_category(g, 2, constant);
        lemma_compiled_category(g, 3, open_paren);
        lemma_compiled_category(g, 4, close_paren);
        lemma_compiled_category(g, 5, open_brace);
        lemma_compiled_category(g, 6, close_brace);
        lemma_compiled_category(g, 7, semicolon);
        lemma_compiled_category(g, 8, comment);
    }
    match (keyword, identifier, constant, open_paren, close_paren, open_brace, close_brace, semicolon, comment) {
        (Ok(c0), Ok(c1), Ok(c2), Ok(c3), Ok(c4), Ok(c5), Ok(c6), Ok(c7), Ok(c8)) => {
            categories.push(c0);
            categories.push(c1);
            categories.push(c2);
            categories.push(c3);
            categories.push(c4);
            categories.push(c5);
            categories.push(c6);
            categories.push(c7);
            categories.push(c8);
            assert(categories@.map_values(|c: Category| c@) =~= g);
            assert(all_patterns_compile(g));
            Ok(Grammar::new(categories))
        },
        (Err(e), _, _, _, _, _, _, _, _) => Err(e),
        (_, Err(e), _, _, _, _, _, _, _) => Err(e),
        (_, _, Err(e), _, _, _, _, _, _) => Err(e),
        (_, _, _, Err(e), _, _, _, _, _) => Err(e),
        (_, _, _, _, Err(e), _, _, _, _) => Err(e),
        (_, _, _, _, _, Err(e), _, _, _) => Err(e),
        (_, _, _, _, _, _, Err(e), _, _) => Err(e),
        (_, _, _, _, _, _, _, Err(e), _) => Err(e),
        (_, _, _, _, _, _, _, _, Err(e)) => Err(e),
    }
}

} // verus!
