use vstd::prelude::*;

use crate::form::{form_ipa, form_pronunciation, form_text, WordForm};
use crate::grammar::{
    arrange, clause_features, realize, FeatureValue, Grammar, GrammarModel, PhraseCategory,
    SyntaxNode,
};
use crate::lexicon::{
    config_drawable, lexeme_models, lexicon_outcome, lexicon_stops, Lexeme,
    LexemeModel, LexiconGenerator, WordGenerationConfig,
};
use crate::mutation::{apply_sequence_outcome, change_models, SoundChange, SoundChangeModel};
use crate::phonology::{
    clone_templates, weights_fit, all_phonemes, phoneme_models, PhonemeModel, Phonology, PhonologyModel, WeightedPhoneme,
};
use crate::rng::Random;
use crate::semantics::{id_views, ConceptId, MapperModel, SemanticMapper};
use crate::text::{
    insert_sorted_unique, lemma_to_set_push, str_eq, strictly_sorted,
    ascii_lower, char_ascii_lower, char_is_ascii_alnum, char_is_ascii_letter, char_is_white_space,
    chars_of, is_ascii_alnum, is_ascii_letter, is_white_space, push_char, push_str,
    string_from_chars, views, IntoText,
};

verus! {

// ---------------------------------------------------------------------------
// Tokens of English text
// ---------------------------------------------------------------------------

/// The abstract content of a token.
pub enum TokenModel {
    Word(Seq<char>),
    Punctuation(char),
}

/// A lower-cased word or a punctuation mark of English text.
#[derive(Debug, PartialEq, Eq)]
pub enum TextToken {
    Word(String),
    Punctuation(char),
}

impl View for TextToken {
    type V = TokenModel;

    open spec fn view(&self) -> TokenModel {
        match self {
            TextToken::Word(w) => TokenModel::Word(w@),
            TextToken::Punctuation(c) => TokenModel::Punctuation(*c),
        }
    }
}

pub open spec fn token_models(v: Seq<TextToken>) -> Seq<TokenModel> {
    v.map_values(|t: TextToken| t@)
}

proof fn lemma_token_models_push(v: Seq<TextToken>, t: TextToken)
    ensures
        token_models(v.push(t)) == token_models(v).push(t@),
{
    assert(token_models(v.push(t)) =~= token_models(v).push(t@));
}

/// A character that belongs to a word: an ASCII letter or an apostrophe.
pub open spec fn is_word_char(c: char) -> bool {
    is_ascii_letter(c) || c == '\''
}

/// Tokens completed after the first `n` characters, and the word being read.
pub open spec fn scan_tokens(cs: Seq<char>, n: nat) -> (Seq<TokenModel>, Seq<char>)
    decreases n,
{
    if n == 0 {
        (Seq::empty(), Seq::empty())
    } else {
        let (toks, cur) = scan_tokens(cs, (n - 1) as nat);
        let c = cs[n - 1];
        if is_word_char(c) {
            (toks, cur.push(ascii_lower(c)))
        } else {
            let t1 = if cur.len() > 0 {
                toks.push(TokenModel::Word(cur))
            } else {
                toks
            };
            let t2 = if !is_white_space(c) {
                t1.push(TokenModel::Punctuation(c))
            } else {
                t1
            };
            (t2, Seq::empty())
        }
    }
}

/// The tokens of a text: maximal runs of letters and apostrophes, lower-cased, and every
/// other character that is not white space.
pub open spec fn tokens_of(cs: Seq<char>) -> Seq<TokenModel> {
    let (toks, cur) = scan_tokens(cs, cs.len());
    if cur.len() > 0 {
        toks.push(TokenModel::Word(cur))
    } else {
        toks
    }
}

/// Splits English text into lower-cased words and punctuation marks.
pub fn tokenize_text(text: &str) -> (r: Vec<TextToken>)
    ensures
        token_models(r@) == tokens_of(text@),
{
    let cs = chars_of(text);
    let mut tokens: Vec<TextToken> = Vec::new();
    let mut current: Vec<char> = Vec::new();
    let mut i: usize = 0;
    while i < cs.len()
        invariant
            0 <= i <= cs@.len(),
            cs@ == text@,
            (token_models(tokens@), current@) == scan_tokens(cs@, i as nat),
        decreases cs@.len() - i,
    {
        let c = cs[i];
        if char_is_ascii_letter(c) || c == '\'' {
            current.push(char_ascii_lower(c));
        } else {
            if current.len() > 0 {
                let w = TextToken::Word(string_from_chars(current.as_slice()));
                proof { lemma_token_models_push(tokens@, w); }
                tokens.push(w);
                current = Vec::new();
            }
            if !char_is_white_space(c) {
                let p = TextToken::Punctuation(c);
                proof { lemma_token_models_push(tokens@, p); }
                tokens.push(p);
            }
            current = Vec::new();
        }
        i = i + 1;
    }
    if current.len() > 0 {
        let w = TextToken::Word(string_from_chars(current.as_slice()));
        proof { lemma_token_models_push(tokens@, w); }
        tokens.push(w);
    }
    tokens
}

/// A single ASCII character that is not a letter or digit.
pub open spec fn is_punctuation_token(t: Seq<char>) -> bool {
    t.len() == 1 && (t[0] as u32) < 0x80 && !is_ascii_alnum(t[0])
}

/// The first `n` tokens joined: punctuation attaches to what precedes it, and other
/// tokens are separated by a space.
pub open spec fn join_tokens_prefix(ts: Seq<Seq<char>>, n: nat) -> Seq<char>
    decreases n,
{
    if n == 0 {
        Seq::empty()
    } else {
        let out = join_tokens_prefix(ts, (n - 1) as nat);
        let t = ts[n - 1];
        if is_punctuation_token(t) {
            out + t
        } else if out.len() > 0 {
            out + " "@ + t
        } else {
            out + t
        }
    }
}

pub open spec fn join_tokens(ts: Seq<Seq<char>>) -> Seq<char> {
    join_tokens_prefix(ts, ts.len())
}

fn is_punctuation(token: &str) -> (r: bool)
    ensures
        r == is_punctuation_token(token@),
{
    let cs = chars_of(token);
    cs.len() == 1 && (cs[0] as u32) < 0x80 && !char_is_ascii_alnum(cs[0])
}

/// Joins translated tokens, attaching punctuation to the preceding text.
pub fn join_translated_tokens(tokens: &[String]) -> (r: String)
    ensures
        r@ == join_tokens(views(tokens@)),
{
    let mut output = String::new();
    let mut i: usize = 0;
    while i < tokens.len()
        invariant
            0 <= i <= tokens@.len(),
            output@ == join_tokens_prefix(views(tokens@), i as nat),
        decreases tokens@.len() - i,
    {
        let token = tokens[i].as_str();
        if is_punctuation(token) {
            push_str(&mut output, token);
        } else {
            if !output.as_str().is_empty() {
                push_str(&mut output, " ");
            }
            push_str(&mut output, token);
        }
        i = i + 1;
    }
    output
}

// ---------------------------------------------------------------------------
// Languages
// ---------------------------------------------------------------------------

/// The abstract content of a language.
pub struct LanguageModel {
    pub name: Seq<char>,
    pub phonology: PhonologyModel,
    pub grammar: GrammarModel,
    pub lexicon: Seq<LexemeModel>,
    pub sound_changes: Seq<SoundChangeModel>,
    pub mapper: MapperModel,
}

/// A generated language: its sounds, grammar, words, history and meanings.
#[derive(Clone, Debug)]
pub struct Language {
    pub name: String,
    pub phonology: Phonology,
    pub grammar: Grammar,
    pub lexicon: Vec<Lexeme>,
    pub sound_changes: Vec<SoundChange>,
    pub semantic_mapper: SemanticMapper,
}

impl View for Language {
    type V = LanguageModel;

    open spec fn view(&self) -> LanguageModel {
        LanguageModel {
            name: self.name@,
            phonology: self.phonology@,
            grammar: self.grammar@,
            lexicon: lexeme_models(self.lexicon@),
            sound_changes: change_models(self.sound_changes@),
            mapper: self.semantic_mapper@,
        }
    }
}

/// The first lexeme expressing concept `id`.
pub open spec fn first_lexeme(lex: Seq<LexemeModel>, id: Seq<char>) -> Option<LexemeModel>
    decreases lex.len(),
{
    if lex.len() == 0 {
        None
    } else if lex[0].concept == id {
        Some(lex[0])
    } else {
        first_lexeme(lex.drop_first(), id)
    }
}

/// The identifiers an English gloss resolves to.
pub open spec fn gloss_ids(m: MapperModel, gloss: Seq<char>) -> Seq<Seq<char>> {
    if m.glosses.contains_key(gloss) {
        m.glosses[gloss]
    } else {
        Seq::empty()
    }
}

/// For each identifier in turn, the first lexeme expressing it, where there is one.
pub open spec fn lexemes_for_ids(lex: Seq<LexemeModel>, ids: Seq<Seq<char>>) -> Seq<LexemeModel>
    decreases ids.len(),
{
    if ids.len() == 0 {
        Seq::empty()
    } else {
        match first_lexeme(lex, ids.last()) {
            Some(l) => lexemes_for_ids(lex, ids.drop_last()).push(l),
            None => lexemes_for_ids(lex, ids.drop_last()),
        }
    }
}

/// The lexemes an English gloss stands for, in mapping order.
pub open spec fn gloss_lexemes(lang: LanguageModel, gloss: Seq<char>) -> Seq<LexemeModel> {
    lexemes_for_ids(lang.lexicon, gloss_ids(lang.mapper, gloss))
}

/// The form of the first lexeme an English gloss stands for.
pub open spec fn gloss_form(lang: LanguageModel, gloss: Seq<char>) -> Option<Seq<Seq<char>>> {
    if gloss_lexemes(lang, gloss).len() > 0 {
        Some(gloss_lexemes(lang, gloss)[0].form)
    } else {
        None
    }
}

/// What a token becomes in translation: a known word becomes the text of its form, an
/// unknown word stays, and a mark stays.
pub open spec fn translate_token(lang: LanguageModel, t: TokenModel) -> Seq<char> {
    match t {
        TokenModel::Word(w) => match gloss_form(lang, w) {
            Some(f) => form_text(f),
            None => w,
        },
        TokenModel::Punctuation(c) => seq![c],
    }
}

/// What a token becomes in a pronunciation guide: a word becomes its reading (or itself
/// when unknown) in brackets, and a mark stays.
pub open spec fn pronounce_token(lang: LanguageModel, t: TokenModel) -> Seq<char> {
    match t {
        TokenModel::Word(w) => "["@ + match gloss_form(lang, w) {
            Some(f) => form_pronunciation(f),
            None => w,
        } + "]"@,
        TokenModel::Punctuation(c) => seq![c],
    }
}

/// What a token becomes in an IPA rendering: a known word becomes the IPA of its form
/// under the language's phonology, an unknown word stays, and a mark stays.
pub open spec fn ipa_token(lang: LanguageModel, t: TokenModel) -> Seq<char> {
    match t {
        TokenModel::Word(w) => match gloss_form(lang, w) {
            Some(f) => form_ipa(lang.phonology, f),
            None => w,
        },
        TokenModel::Punctuation(c) => seq![c],
    }
}

pub open spec fn ref_lexeme_models(v: Seq<&Lexeme>) -> Seq<LexemeModel> {
    v.map_values(|l: &Lexeme| l@)
}

/// A syntax tree over English glosses.
#[derive(Debug)]
pub enum GlossSyntaxNode {
    Leaf(String),
    Branch { category: PhraseCategory, children: Vec<GlossSyntaxNode> },
}

impl GlossSyntaxNode {
    pub fn leaf<S: IntoText>(gloss: S) -> (r: Self)
        ensures
            r matches GlossSyntaxNode::Leaf(g) && g@ == gloss.text_view(),
    {
        GlossSyntaxNode::Leaf(gloss.into_text())
    }

    pub fn branch(category: PhraseCategory, children: Vec<GlossSyntaxNode>) -> (r: Self)
        ensures
            r == (GlossSyntaxNode::Branch { category, children }),
    {
        GlossSyntaxNode::Branch { category, children }
    }
}

/// Every gloss of the tree has a lexeme.
pub open spec fn resolvable(lang: LanguageModel, tree: GlossSyntaxNode) -> bool
    decreases tree, 1int,
{
    match tree {
        GlossSyntaxNode::Leaf(g) => gloss_form(lang, g@) is Some,
        GlossSyntaxNode::Branch { category, children } => all_resolvable(lang, children@),
    }
}

pub open spec fn all_resolvable(lang: LanguageModel, trees: Seq<GlossSyntaxNode>) -> bool
    decreases trees, 0int,
{
    if trees.len() == 0 {
        true
    } else {
        all_resolvable(lang, trees.drop_last()) && resolvable(lang, trees.last())
    }
}

/// The inflected words of a gloss tree, in surface order (meaningful when it is resolvable).
pub open spec fn gloss_realize(lang: LanguageModel, tree: GlossSyntaxNode, features: Seq<FeatureValue>) -> Seq<
    Seq<Seq<char>>,
>
    decreases tree, 1int,
{
    match tree {
        GlossSyntaxNode::Leaf(g) => seq![
            crate::grammar::inflect(lang.grammar.rules, gloss_form(lang, g@).unwrap(), features),
        ],
        GlossSyntaxNode::Branch { category, children } => {
            if category == PhraseCategory::Sentence && children@.len() == 3 {
                arrange(
                    lang.grammar.word_order,
                    gloss_realize(lang, children@[0], clause_features(features, 0)),
                    gloss_realize(lang, children@[1], clause_features(features, 1)),
                    gloss_realize(lang, children@[2], clause_features(features, 2)),
                )
            } else {
                gloss_realize_all(lang, children@, features)
            }
        },
    }
}

pub open spec fn gloss_realize_all(lang: LanguageModel, trees: Seq<GlossSyntaxNode>, features: Seq<FeatureValue>) -> Seq<
    Seq<Seq<char>>,
>
    decreases trees, 0int,
{
    if trees.len() == 0 {
        Seq::empty()
    } else {
        gloss_realize_all(lang, trees.drop_last(), features) + gloss_realize(
            lang,
            trees.last(),
            features,
        )
    }
}

/// `node` is `tree` with each gloss replaced by the form of its first lexeme.
pub open spec fn corresponds(lang: LanguageModel, tree: GlossSyntaxNode, node: SyntaxNode) -> bool
    decreases tree, 1int,
{
    match tree {
        GlossSyntaxNode::Leaf(g) => node matches SyntaxNode::Leaf(w) && gloss_form(lang, g@) == Some(
            w@,
        ),
        GlossSyntaxNode::Branch { category, children } => match node {
            SyntaxNode::Branch { category: c2, children: ch2 } => category == c2
                && all_correspond(lang, children@, ch2@),
            _ => false,
        },
    }
}

pub open spec fn all_correspond(lang: LanguageModel, trees: Seq<GlossSyntaxNode>, nodes: Seq<SyntaxNode>) -> bool
    decreases trees, 0int,
{
    if trees.len() == 0 {
        nodes.len() == 0
    } else {
        nodes.len() == trees.len() && all_correspond(lang, trees.drop_last(), nodes.drop_last())
            && corresponds(lang, trees.last(), nodes.last())
    }
}

proof fn lemma_all_correspond_index(
    lang: LanguageModel,
    trees: Seq<GlossSyntaxNode>,
    nodes: Seq<SyntaxNode>,
    k: int,
)
    requires
        all_correspond(lang, trees, nodes),
        0 <= k < trees.len(),
    ensures
        nodes.len() == trees.len(),
        corresponds(lang, trees[k], nodes[k]),
    decreases trees.len(),
{
    if k < trees.len() - 1 {
        lemma_all_correspond_index(lang, trees.drop_last(), nodes.drop_last(), k);
    }
}

proof fn lemma_corresponds_realize(
    lang: LanguageModel,
    tree: GlossSyntaxNode,
    node: SyntaxNode,
    features: Seq<FeatureValue>,
)
    requires
        corresponds(lang, tree, node),
    ensures
        realize(lang.grammar, node, features) == gloss_realize(lang, tree, features),
    decreases tree, 1int,
{
    match tree {
        GlossSyntaxNode::Leaf(g) => {},
        GlossSyntaxNode::Branch { category, children } => {
            let ch2 = node->children;
            if category == PhraseCategory::Sentence && children@.len() == 3 {
                lemma_all_correspond_index(lang, children@, ch2@, 0);
                lemma_all_correspond_index(lang, children@, ch2@, 1);
                lemma_all_correspond_index(lang, children@, ch2@, 2);
                lemma_corresponds_realize(lang, children@[0], ch2@[0], clause_features(features, 0));
                lemma_corresponds_realize(lang, children@[1], ch2@[1], clause_features(features, 1));
                lemma_corresponds_realize(lang, children@[2], ch2@[2], clause_features(features, 2));
            } else {
                if children@.len() > 0 {
                    lemma_all_correspond_index(lang, children@, ch2@, 0);
                }
                lemma_all_correspond_realize(lang, children@, ch2@, features);
            }
        },
    }
}

proof fn lemma_all_correspond_realize(
    lang: LanguageModel,
    trees: Seq<GlossSyntaxNode>,
    nodes: Seq<SyntaxNode>,
    features: Seq<FeatureValue>,
)
    requires
        all_correspond(lang, trees, nodes),
    ensures
        crate::grammar::realize_all(lang.grammar, nodes, features) == gloss_realize_all(
            lang,
            trees,
            features,
        ),
    decreases trees, 0int,
{
    if trees.len() > 0 {
        lemma_all_correspond_realize(lang, trees.drop_last(), nodes.drop_last(), features);
        lemma_corresponds_realize(lang, trees.last(), nodes.last(), features);
    }
}

/// A string holding one character.
fn char_string(c: char) -> (r: String)
    ensures
        r@ == seq![c],
{
    let mut r = String::new();
    push_char(&mut r, c);
    assert(r@ =~= seq![c]);
    r
}

impl Language {
    /// The first lexeme expressing `concept_id`.
    pub fn lexeme_by_concept(&self, concept_id: &ConceptId) -> (r: Option<&Lexeme>)
        ensures
            match r {
                Some(l) => first_lexeme(self@.lexicon, concept_id@) == Some(l@),
                None => first_lexeme(self@.lexicon, concept_id@) is None,
            },
    {
        let ghost models = self@.lexicon;
        let mut i: usize = 0;
        assert(models.skip(0) =~= models);
        while i < self.lexicon.len()
            invariant
                0 <= i <= self.lexicon@.len(),
                models == lexeme_models(self.lexicon@),
                first_lexeme(models, concept_id@) == first_lexeme(models.skip(i as int), concept_id@),
            decreases self.lexicon@.len() - i,
        {
            let ghost rest = models.skip(i as int);
            assert(rest[0] == self.lexicon@[i as int]@);
            if self.lexicon[i].concept_id.same(concept_id) {
                return Some(&self.lexicon[i]);
            }
            assert(rest.drop_first() =~= models.skip(i as int + 1));
            i = i + 1;
        }
        None
    }

    /// The lexemes `gloss` stands for, in mapping order.
    pub fn lexemes_for_gloss(&self, gloss: &str) -> (r: Vec<&Lexeme>)
        ensures
            ref_lexeme_models(r@) == gloss_lexemes(self@, gloss@),
    {
        let concept_ids = self.semantic_mapper.resolve_gloss(gloss);
        let ghost ids = id_views(concept_ids@);
        let mut out: Vec<&Lexeme> = Vec::new();
        let mut i: usize = 0;
        while i < concept_ids.len()
            invariant
                0 <= i <= concept_ids@.len(),
                ids == id_views(concept_ids@),
                ref_lexeme_models(out@) == lexemes_for_ids(self@.lexicon, ids.take(i as int)),
            decreases concept_ids@.len() - i,
        {
            assert(ids.take(i as int + 1).drop_last() =~= ids.take(i as int));
            match self.lexeme_by_concept(&concept_ids[i]) {
                Some(l) => {
                    assert(ref_lexeme_models(out@.push(l)) =~= ref_lexeme_models(out@).push(l@));
                    out.push(l);
                },
                None => {},
            }
            i = i + 1;
        }
        assert(ids.take(concept_ids@.len() as int) =~= ids);
        out
    }

    /// The form of the first lexeme `gloss` stands for.
    fn form_for_gloss(&self, gloss: &str) -> (r: Option<&WordForm>)
        ensures
            match r {
                Some(f) => gloss_form(self@, gloss@) == Some(f@),
                None => gloss_form(self@, gloss@) is None,
            },
    {
        let lexemes = self.lexemes_for_gloss(gloss);
        if lexemes.len() > 0 {
            assert(ref_lexeme_models(lexemes@)[0] == lexemes@[0]@);
            Some(&lexemes[0].form)
        } else {
            None
        }
    }

    /// The forms of the first `limit` lexemes.
    pub fn sample_words(&self, limit: usize) -> (r: Vec<&WordForm>)
        ensures
            r@.len() == (if limit < self.lexicon@.len() { limit as int } else { self.lexicon@.len() as int }),
            forall|i: int| 0 <= i < r@.len() ==> #[trigger] r@[i]@ == self@.lexicon[i].form,
    {
        let mut out: Vec<&WordForm> = Vec::new();
        let mut i: usize = 0;
        while i < self.lexicon.len() && i < limit
            invariant
                0 <= i <= self.lexicon@.len(),
                i <= limit,
                out@.len() == i,
                forall|k: int| 0 <= k < i ==> #[trigger] out@[k]@ == self@.lexicon[k].form,
            decreases self.lexicon@.len() - i,
        {
            out.push(&self.lexicon[i].form);
            i = i + 1;
        }
        out
    }

    /// Renders a syntax tree with the language's grammar.
    pub fn render_tree(&self, node: &SyntaxNode, features: &[FeatureValue]) -> (r: String)
        ensures
            r@ == crate::form::join(
                realize(self@.grammar, *node, features@).map_values(|w: Seq<Seq<char>>| form_text(w)),
                " "@,
            ),
    {
        self.grammar.render_node(node, features)
    }

    /// Replaces each gloss of `tree` by the form of its first lexeme; `None` when a gloss has none.
    fn resolve_gloss_tree(&self, tree: &GlossSyntaxNode) -> (r: Option<SyntaxNode>)
        ensures
            r is Some <==> resolvable(self@, *tree),
            r matches Some(node) ==> corresponds(self@, *tree, node),
        decreases tree,
    {
        match tree {
            GlossSyntaxNode::Leaf(gloss) => match self.form_for_gloss(gloss.as_str()) {
                Some(form) => Some(SyntaxNode::Leaf(form.clone())),
                None => None,
            },
            GlossSyntaxNode::Branch { category, children } => {
                let mut syntax_children: Vec<SyntaxNode> = Vec::new();
                let mut i: usize = 0;
                while i < children.len()
                    invariant
                        0 <= i <= children@.len(),
                        *tree == (GlossSyntaxNode::Branch { category: *category, children: *children }),
                        all_resolvable(self@, children@.take(i as int)),
                        all_correspond(self@, children@.take(i as int), syntax_children@),
                        syntax_children@.len() == i,
                    decreases children@.len() - i,
                {
                    proof {
                        vstd::std_specs::vec::axiom_vec_index_decreases(*children, i as int);
                        assert(decreases_to!(*tree => tree->children));
                        assert(children@.take(i as int + 1).drop_last() =~= children@.take(i as int));
                    }
                    match self.resolve_gloss_tree(&children[i]) {
                        Some(node) => {
                            proof {
                                assert(syntax_children@.push(node).drop_last() =~= syntax_children@);
                            }
                            syntax_children.push(node);
                        },
                        None => {
                            proof {
                                lemma_all_resolvable_prefix(self@, children@, i as nat + 1);
                            }
                            return None;
                        },
                    }
                    i = i + 1;
                }
                assert(children@.take(children@.len() as int) =~= children@);
                Some(SyntaxNode::Branch { category: *category, children: syntax_children })
            },
        }
    }

    /// Renders a gloss tree with no feature values; `None` when a gloss has no lexeme.
    pub fn render_tree_from_glosses(&self, tree: &GlossSyntaxNode) -> (r: Option<String>)
        ensures
            r is Some <==> resolvable(self@, *tree),
            r matches Some(s) ==> s@ == crate::form::join(
                gloss_realize(self@, *tree, Seq::empty()).map_values(
                    |w: Seq<Seq<char>>| form_text(w),
                ),
                " "@,
            ),
    {
        let none: Vec<FeatureValue> = Vec::new();
        assert(none@ =~= Seq::<FeatureValue>::empty());
        self.render_tree_from_glosses_with_features(tree, none.as_slice())
    }

    /// Renders a gloss tree with the given feature values; `None` when a gloss has no lexeme.
    pub fn render_tree_from_glosses_with_features(
        &self,
        tree: &GlossSyntaxNode,
        features: &[FeatureValue],
    ) -> (r: Option<String>)
        ensures
            r is Some <==> resolvable(self@, *tree),
            r matches Some(s) ==> s@ == crate::form::join(
                gloss_realize(self@, *tree, features@).map_values(
                    |w: Seq<Seq<char>>| form_text(w),
                ),
                " "@,
            ),
    {
        match self.resolve_gloss_tree(tree) {
            Some(node) => {
                proof {
                    lemma_corresponds_realize(self@, *tree, node, features@);
                }
                Some(self.render_tree(&node, features))
            },
            None => None,
        }
    }

    /// Renders "subject object verb" from English glosses, marking the object plural and
    /// the verb past when asked; `None` when a gloss has no lexeme.
    pub fn render_clause_from_glosses(
        &self,
        subject_gloss: &str,
        object_gloss: &str,
        verb_gloss: &str,
        object_is_plural: bool,
        verb_is_past: bool,
    ) -> (r: Option<String>)
        ensures
            r is Some <==> gloss_form(self@, subject_gloss@) is Some && gloss_form(
                self@,
                object_gloss@,
            ) is Some && gloss_form(self@, verb_gloss@) is Some,
            r matches Some(s) ==> s@ == crate::form::join(
                clause_words(
                    self@,
                    subject_gloss@,
                    object_gloss@,
                    verb_gloss@,
                    clause_feature_values(object_is_plural, verb_is_past),
                ).map_values(|w: Seq<Seq<char>>| form_text(w)),
                " "@,
            ),
    {
        let mut features: Vec<FeatureValue> = Vec::new();
        if object_is_plural {
            features.push(FeatureValue::Plural);
        }
        if verb_is_past {
            features.push(FeatureValue::Past);
        }
        assert(features@ =~= clause_feature_values(object_is_plural, verb_is_past));
        let subject = GlossSyntaxNode::leaf(subject_gloss);
        let object = GlossSyntaxNode::leaf(object_gloss);
        let verb = GlossSyntaxNode::leaf(verb_gloss);
        let ghost (sv, ov, vv) = (subject, object, verb);
        let mut children: Vec<GlossSyntaxNode> = Vec::new();
        children.push(subject);
        children.push(object);
        children.push(verb);
        let tree = GlossSyntaxNode::branch(PhraseCategory::Sentence, children);
        proof {
            assert(children@[0] == sv && children@[1] == ov && children@[2] == vv);
            law_clause_is_a_sentence_tree(
                self@,
                tree,
                subject_gloss@,
                object_gloss@,
                verb_gloss@,
                features@,
            );
        }
        self.render_tree_from_glosses_with_features(&tree, features.as_slice())
    }

    /// The IPA rendering of the translation of `text`: each English word replaced by the
    /// IPA of the first lexeme it stands for, unknown words and punctuation kept.
    pub fn ipa_for_text(&self, text: &str) -> (r: String)
        ensures
            r@ == join_tokens(tokens_of(text@).map_values(|t: TokenModel| ipa_token(self@, t))),
    {
        let tokens = tokenize_text(text);
        let ghost tms = token_models(tokens@);
        let mut rendered: Vec<String> = Vec::new();
        let mut i: usize = 0;
        while i < tokens.len()
            invariant
                0 <= i <= tokens@.len(),
                tms == token_models(tokens@),
                views(rendered@) =~= tms.take(i as int).map_values(
                    |t: TokenModel| ipa_token(self@, t),
                ),
            decreases tokens@.len() - i,
        {
            let piece = match &tokens[i] {
                TextToken::Word(word) => match self.form_for_gloss(word.as_str()) {
                    Some(form) => form.to_ipa_string(&self.phonology),
                    None => word.clone(),
                },
                TextToken::Punctuation(mark) => char_string(*mark),
            };
            assert(piece@ == ipa_token(self@, tms[i as int]));
            proof {
                crate::text::lemma_views_push(rendered@, piece);
            }
            rendered.push(piece);
            i = i + 1;
        }
        assert(tms.take(tokens@.len() as int) =~= tms);
        join_translated_tokens(rendered.as_slice())
    }

    /// Replaces each English word of `text` by the text of the first lexeme it stands for,
    /// keeping unknown words and punctuation.
    pub fn translate_text(&self, text: &str) -> (r: String)
        ensures
            r@ == join_tokens(tokens_of(text@).map_values(|t: TokenModel| translate_token(self@, t))),
    {
        let tokens = tokenize_text(text);
        let ghost tms = token_models(tokens@);
        let mut translated: Vec<String> = Vec::new();
        let mut i: usize = 0;
        while i < tokens.len()
            invariant
                0 <= i <= tokens@.len(),
                tms == token_models(tokens@),
                views(translated@) =~= tms.take(i as int).map_values(
                    |t: TokenModel| translate_token(self@, t),
                ),
            decreases tokens@.len() - i,
        {
            let piece = match &tokens[i] {
                TextToken::Word(word) => match self.form_for_gloss(word.as_str()) {
                    Some(form) => form.text(),
                    None => word.clone(),
                },
                TextToken::Punctuation(mark) => char_string(*mark),
            };
            assert(piece@ == translate_token(self@, tms[i as int]));
            proof {
                crate::text::lemma_views_push(translated@, piece);
            }
            translated.push(piece);
            i = i + 1;
        }
        assert(tms.take(tokens@.len() as int) =~= tms);
        join_translated_tokens(translated.as_slice())
    }

    /// A pronunciation guide for `text`: each English word replaced by the bracketed
    /// reading of the first lexeme it stands for (or by itself in brackets), punctuation kept.
    pub fn pronunciation_for_text(&self, text: &str) -> (r: String)
        ensures
            r@ == join_tokens(tokens_of(text@).map_values(|t: TokenModel| pronounce_token(self@, t))),
    {
        let tokens = tokenize_text(text);
        let ghost tms = token_models(tokens@);
        let mut pronunciation: Vec<String> = Vec::new();
        let mut i: usize = 0;
        while i < tokens.len()
            invariant
                0 <= i <= tokens@.len(),
                tms == token_models(tokens@),
                views(pronunciation@) =~= tms.take(i as int).map_values(
                    |t: TokenModel| pronounce_token(self@, t),
                ),
            decreases tokens@.len() - i,
        {
            let piece = match &tokens[i] {
                TextToken::Word(word) => {
                    let mut p = String::new();
                    push_str(&mut p, "[");
                    match self.form_for_gloss(word.as_str()) {
                        Some(form) => {
                            let reading = form.pronunciation();
                            push_str(&mut p, reading.as_str());
                        },
                        None => {
                            push_str(&mut p, word.as_str());
                        },
                    }
                    push_str(&mut p, "]");
                    p
                },
                TextToken::Punctuation(mark) => char_string(*mark),
            };
            assert(piece@ =~= pronounce_token(self@, tms[i as int]));
            proof {
                crate::text::lemma_views_push(pronunciation@, piece);
            }
            pronunciation.push(piece);
            i = i + 1;
        }
        assert(tms.take(tokens@.len() as int) =~= tms);
        join_translated_tokens(pronunciation.as_slice())
    }
}

/// The feature values of a clause: plural for the object, past for the verb.
pub open spec fn clause_feature_values(object_is_plural: bool, verb_is_past: bool) -> Seq<FeatureValue> {
    (if object_is_plural {
        seq![FeatureValue::Plural]
    } else {
        Seq::empty()
    }) + (if verb_is_past {
        seq![FeatureValue::Past]
    } else {
        Seq::empty()
    })
}

/// The words of a clause built from three glosses, in surface order.
pub open spec fn clause_words(
    lang: LanguageModel,
    subject: Seq<char>,
    object: Seq<char>,
    verb: Seq<char>,
    features: Seq<FeatureValue>,
) -> Seq<Seq<Seq<char>>> {
    let rules = lang.grammar.rules;
    arrange(
        lang.grammar.word_order,
        seq![crate::grammar::inflect(rules, gloss_form(lang, subject).unwrap(), clause_features(features, 0))],
        seq![crate::grammar::inflect(rules, gloss_form(lang, object).unwrap(), clause_features(features, 1))],
        seq![crate::grammar::inflect(rules, gloss_form(lang, verb).unwrap(), clause_features(features, 2))],
    )
}

/// `tree` is a sentence of three leaves holding the given subject, object and verb glosses.
pub open spec fn is_clause_tree(
    tree: GlossSyntaxNode,
    subject: Seq<char>,
    object: Seq<char>,
    verb: Seq<char>,
) -> bool {
    &&& tree matches GlossSyntaxNode::Branch { category, children }
    &&& tree->category == PhraseCategory::Sentence
    &&& tree->children@.len() == 3
    &&& tree->children@[0] matches GlossSyntaxNode::Leaf(g) && g@ == subject
    &&& tree->children@[1] matches GlossSyntaxNode::Leaf(g) && g@ == object
    &&& tree->children@[2] matches GlossSyntaxNode::Leaf(g) && g@ == verb
}

/// A clause rendered from three glosses is the sentence tree of those three glosses
/// rendered with the same feature values: it can be rendered exactly when each gloss has
/// a lexeme, and then its words are the tree's words.
pub proof fn law_clause_is_a_sentence_tree(
    lang: LanguageModel,
    tree: GlossSyntaxNode,
    subject: Seq<char>,
    object: Seq<char>,
    verb: Seq<char>,
    features: Seq<FeatureValue>,
)
    requires
        is_clause_tree(tree, subject, object, verb),
    ensures
        resolvable(lang, tree) <==> gloss_form(lang, subject) is Some && gloss_form(lang, object)
            is Some && gloss_form(lang, verb) is Some,
        gloss_realize(lang, tree, features) == clause_words(lang, subject, object, verb, features),
{
    let ch = tree->children@;
    assert(ch.drop_last().drop_last().drop_last() =~= Seq::<GlossSyntaxNode>::empty());
    assert(ch.drop_last().drop_last().last() == ch[0]);
    assert(ch.drop_last().last() == ch[1]);
    assert(all_resolvable(lang, ch.drop_last().drop_last().drop_last()));
    assert(all_resolvable(lang, ch.drop_last().drop_last()) == resolvable(lang, ch[0]));
    assert(all_resolvable(lang, ch.drop_last()) == (resolvable(lang, ch[0]) && resolvable(lang, ch[1])));
    assert(all_resolvable(lang, ch) == (resolvable(lang, ch[0]) && resolvable(lang, ch[1])
        && resolvable(lang, ch[2])));
    let rules = lang.grammar.rules;
    assert(gloss_realize(lang, ch[0], clause_features(features, 0)) == seq![
        crate::grammar::inflect(rules, gloss_form(lang, subject).unwrap(), clause_features(features, 0)),
    ]);
    assert(gloss_realize(lang, ch[1], clause_features(features, 1)) == seq![
        crate::grammar::inflect(rules, gloss_form(lang, object).unwrap(), clause_features(features, 1)),
    ]);
    assert(gloss_realize(lang, ch[2], clause_features(features, 2)) == seq![
        crate::grammar::inflect(rules, gloss_form(lang, verb).unwrap(), clause_features(features, 2)),
    ]);
}

proof fn lemma_all_resolvable_prefix(lang: LanguageModel, trees: Seq<GlossSyntaxNode>, n: nat)
    requires
        n <= trees.len(),
        !all_resolvable(lang, trees.take(n as int)),
    ensures
        !all_resolvable(lang, trees),
    decreases trees.len() - n,
{
    if n < trees.len() {
        assert(trees.take(n as int + 1).drop_last() =~= trees.take(n as int));
        lemma_all_resolvable_prefix(lang, trees, n + 1);
    } else {
        assert(trees.take(n as int) =~= trees);
    }
}

// ---------------------------------------------------------------------------
// Inventories
// ---------------------------------------------------------------------------

/// The symbols of the phonology's inventories.
pub open spec fn inventory_symbol_set(ph: PhonologyModel) -> Set<Seq<char>> {
    all_phonemes(ph).map_values(|p: PhonemeModel| p.symbol).to_set()
}

/// The symbols occurring in the forms of a lexicon.
pub open spec fn lexicon_symbol_set(lex: Seq<LexemeModel>) -> Set<Seq<char>> {
    Set::new(
        |x: Seq<char>|
            exists|i: int, j: int|
                0 <= i < lex.len() && 0 <= j < lex[i].form.len() && #[trigger] lex[i].form[j] == x,
    )
}

/// Inserts the symbols of `inventory` into a sorted list of distinct symbols.
fn insert_symbols(list: &mut Vec<String>, inventory: &Vec<WeightedPhoneme>)
    requires
        strictly_sorted(views(old(list)@)),
    ensures
        strictly_sorted(views(final(list)@)),
        views(final(list)@).to_set() == views(old(list)@).to_set() + phoneme_models(
            inventory@,
        ).map_values(|p: PhonemeModel| p.symbol).to_set(),
{
    let ghost syms = phoneme_models(inventory@).map_values(|p: PhonemeModel| p.symbol);
    let ghost start = views(list@).to_set();
    let mut i: usize = 0;
    while i < inventory.len()
        invariant
            0 <= i <= inventory@.len(),
            syms == phoneme_models(inventory@).map_values(|p: PhonemeModel| p.symbol),
            strictly_sorted(views(list@)),
            views(list@).to_set() == start + syms.take(i as int).to_set(),
        decreases inventory@.len() - i,
    {
        let symbol = inventory[i].symbol.clone();
        insert_sorted_unique(list, symbol);
        proof {
            assert(syms.take(i as int + 1) =~= syms.take(i as int).push(syms[i as int]));
            lemma_to_set_push(syms.take(i as int), syms[i as int]);
            assert(views(list@).to_set() =~= start + syms.take(i as int + 1).to_set());
        }
        i = i + 1;
    }
    assert(syms.take(inventory@.len() as int) =~= syms);
}

/// Symbols of the phoneme list `v` as a set.
pub open spec fn symbol_set(v: Seq<PhonemeModel>) -> Set<Seq<char>> {
    v.map_values(|p: PhonemeModel| p.symbol).to_set()
}

proof fn lemma_symbol_set_contains(v: Seq<PhonemeModel>, x: Seq<char>)
    ensures
        symbol_set(v).contains(x) <==> exists|j: int| 0 <= j < v.len() && #[trigger] v[j].symbol == x,
{
    let m = v.map_values(|p: PhonemeModel| p.symbol);
    if exists|j: int| 0 <= j < v.len() && #[trigger] v[j].symbol == x {
        let j = choose|j: int| 0 <= j < v.len() && #[trigger] v[j].symbol == x;
        assert(m[j] == x);
    }
    if m.contains(x) {
        let j = choose|j: int| 0 <= j < m.len() && m[j] == x;
        assert(v[j].symbol == x);
    }
}

proof fn lemma_symbol_set_push(v: Seq<PhonemeModel>, p: PhonemeModel)
    ensures
        symbol_set(v.push(p)) == symbol_set(v).insert(p.symbol),
{
    let f = |q: PhonemeModel| q.symbol;
    assert(v.push(p).map_values(f) =~= v.map_values(f).push(p.symbol));
    lemma_to_set_push(v.map_values(f), p.symbol);
}

proof fn lemma_symbol_set_concat(a: Seq<PhonemeModel>, b: Seq<PhonemeModel>)
    ensures
        symbol_set(a + b) == symbol_set(a) + symbol_set(b),
{
    let f = |p: PhonemeModel| p.symbol;
    assert((a + b).map_values(f) =~= a.map_values(f) + b.map_values(f));
    vstd::seq_lib::lemma_seq_union_to_multiset_commutative(a.map_values(f), b.map_values(f));
    assert forall|x: Seq<char>| symbol_set(a + b).contains(x) <==> (symbol_set(a) + symbol_set(b)).contains(x) by {
        let s = a.map_values(f) + b.map_values(f);
        if s.contains(x) {
            let k = choose|k: int| 0 <= k < s.len() && s[k] == x;
            if k < a.len() {
                assert(a.map_values(f)[k] == x);
            } else {
                assert(b.map_values(f)[k - a.len()] == x);
            }
        }
        if a.map_values(f).contains(x) {
            let k = choose|k: int| 0 <= k < a.len() && a.map_values(f)[k] == x;
            assert(s[k] == x);
        }
        if b.map_values(f).contains(x) {
            let k = choose|k: int| 0 <= k < b.len() && b.map_values(f)[k] == x;
            assert(s[k + a.len()] == x);
        }
    }
    assert(symbol_set(a + b) =~= symbol_set(a) + symbol_set(b));
}

impl Language {
    /// The distinct symbols of the phonology's inventories in sorted order, or, when the
    /// inventories are empty, those of the lexicon's forms.
    pub fn inventory_snapshot(&self) -> (r: Vec<String>)
        ensures
            strictly_sorted(views(r@)),
            views(r@).to_set() == (if inventory_symbol_set(self@.phonology).len() == 0 {
                lexicon_symbol_set(self@.lexicon)
            } else {
                inventory_symbol_set(self@.phonology)
            }),
    {
        let ghost ph = self@.phonology;
        let mut symbols: Vec<String> = Vec::new();
        assert(views(symbols@).to_set() =~= Set::<Seq<char>>::empty());
        insert_symbols(&mut symbols, &self.phonology.vowels);
        insert_symbols(&mut symbols, &self.phonology.onset_consonants);
        insert_symbols(&mut symbols, &self.phonology.clusters);
        insert_symbols(&mut symbols, &self.phonology.coda_consonants);
        proof {
            lemma_symbol_set_concat(ph.vowels, ph.onset_consonants);
            lemma_symbol_set_concat(ph.vowels + ph.onset_consonants, ph.clusters);
            lemma_symbol_set_concat(ph.vowels + ph.onset_consonants + ph.clusters, ph.coda_consonants);
            assert(views(symbols@).to_set() =~= inventory_symbol_set(ph));
            vstd::seq_lib::seq_to_set_is_finite(views(symbols@));
            if symbols@.len() > 0 {
                assert(views(symbols@).to_set().contains(views(symbols@)[0]));
                if views(symbols@).to_set().len() == 0 {
                    views(symbols@).to_set().lemma_len0_is_empty();
                }
            } else {
                assert(views(symbols@).to_set() =~= Set::<Seq<char>>::empty());
            }
        }
        if symbols.len() == 0 {
            assert(views(symbols@).to_set() =~= Set::<Seq<char>>::empty());
            let ghost lex = self@.lexicon;
            let mut i: usize = 0;
            while i < self.lexicon.len()
                invariant
                    0 <= i <= self.lexicon@.len(),
                    lex == lexeme_models(self.lexicon@),
                    strictly_sorted(views(symbols@)),
                    forall|x: Seq<char>| #[trigger] views(symbols@).to_set().contains(x) <==> exists|a: int, b: int|
                        0 <= a < i && 0 <= b < lex[a].form.len() && #[trigger] lex[a].form[b] == x,
                decreases self.lexicon@.len() - i,
            {
                let phonemes = self.lexicon[i].form.phonemes();
                let ghost form = lex[i as int].form;
                let mut j: usize = 0;
                while j < phonemes.len()
                    invariant
                        0 <= j <= phonemes@.len(),
                        lex == lexeme_models(self.lexicon@),
                        form == lex[i as int].form,
                        views(phonemes@) == form,
                        0 <= i < lex.len(),
                        strictly_sorted(views(symbols@)),
                        forall|x: Seq<char>| #[trigger] views(symbols@).to_set().contains(x) <==> (exists|a: int, b: int|
                            0 <= a < i && 0 <= b < lex[a].form.len() && #[trigger] lex[a].form[b] == x)
                            || (exists|b: int| 0 <= b < j && form[b] == x),
                    decreases phonemes@.len() - j,
                {
                    let symbol = phonemes[j].clone();
                    assert(symbol@ == form[j as int]);
                    insert_sorted_unique(&mut symbols, symbol);
                    j = j + 1;
                }
                proof {
                    assert forall|x: Seq<char>| #[trigger] views(symbols@).to_set().contains(x) <==> exists|a: int, b: int|
                        0 <= a < i + 1 && 0 <= b < lex[a].form.len() && #[trigger] lex[a].form[b] == x by {
                        if exists|b: int| 0 <= b < phonemes@.len() && form[b] == x {
                            let b = choose|b: int| 0 <= b < phonemes@.len() && form[b] == x;
                            assert(lex[i as int].form[b] == x);
                        }
                        if exists|a: int, b: int|
                            0 <= a < i + 1 && 0 <= b < lex[a].form.len() && #[trigger] lex[a].form[b] == x {
                            let (a, b) = choose|a: int, b: int|
                                0 <= a < i + 1 && 0 <= b < lex[a].form.len() && #[trigger] lex[a].form[b] == x;
                            if a == i {
                                assert(form[b] == x);
                            }
                        }
                    }
                }
                i = i + 1;
            }
            assert(views(symbols@).to_set() =~= lexicon_symbol_set(lex));
        }
        symbols
    }
}

// ---------------------------------------------------------------------------
// Derived phonology
// ---------------------------------------------------------------------------

/// A symbol after the single-symbol changes in order (changes to several symbols leave it).
pub open spec fn renamed_symbol(symbol: Seq<char>, changes: Seq<SoundChangeModel>) -> Seq<char>
    decreases changes.len(),
{
    if changes.len() == 0 {
        symbol
    } else {
        let s1 = renamed_symbol(symbol, changes.drop_last());
        let c = changes.last();
        if s1 == c.from && c.to.len() == 1 {
            c.to[0]
        } else {
            s1
        }
    }
}

/// The phonemes of `v` whose symbol does not occur earlier in `v`.
pub open spec fn first_of_each_symbol(v: Seq<PhonemeModel>) -> Seq<PhonemeModel>
    decreases v.len(),
{
    if v.len() == 0 {
        Seq::empty()
    } else if exists|j: int| 0 <= j < v.len() - 1 && #[trigger] v[j].symbol == v.last().symbol {
        first_of_each_symbol(v.drop_last())
    } else {
        first_of_each_symbol(v.drop_last()).push(v.last())
    }
}

/// An inventory after the sound changes: each symbol renamed, then only the first
/// phoneme of each resulting symbol kept.
pub open spec fn derived_inventory(v: Seq<PhonemeModel>, changes: Seq<SoundChangeModel>) -> Seq<
    PhonemeModel,
> {
    first_of_each_symbol(
        v.map_values(|p: PhonemeModel| PhonemeModel { symbol: renamed_symbol(p.symbol, changes), ..p }),
    )
}

/// A phonology after the sound changes: inventories derived, templates and constraints kept.
pub open spec fn derived_phonology(ph: PhonologyModel, changes: Seq<SoundChangeModel>) -> PhonologyModel {
    PhonologyModel {
        vowels: derived_inventory(ph.vowels, changes),
        onset_consonants: derived_inventory(ph.onset_consonants, changes),
        clusters: derived_inventory(ph.clusters, changes),
        coda_consonants: derived_inventory(ph.coda_consonants, changes),
        templates: ph.templates,
        disallow_initial_vowel: ph.disallow_initial_vowel,
    }
}

fn renamed(symbol: &String, changes: &[SoundChange]) -> (r: String)
    ensures
        r@ == renamed_symbol(symbol@, change_models(changes@)),
{
    let mut current = symbol.clone();
    let ghost cm = change_models(changes@);
    let mut i: usize = 0;
    while i < changes.len()
        invariant
            0 <= i <= changes@.len(),
            cm == change_models(changes@),
            current@ == renamed_symbol(symbol@, cm.take(i as int)),
        decreases changes@.len() - i,
    {
        assert(cm.take(i as int + 1).drop_last() =~= cm.take(i as int));
        let change = &changes[i];
        if str_eq(current.as_str(), change.from.as_str()) && change.to.len() == 1 {
            current = change.to[0].clone();
        }
        i = i + 1;
    }
    assert(cm.take(changes@.len() as int) =~= cm);
    current
}

fn contains_symbol(list: &Vec<String>, symbol: &str) -> (r: bool)
    ensures
        r == views(list@).contains(symbol@),
{
    let mut i: usize = 0;
    while i < list.len()
        invariant
            0 <= i <= list@.len(),
            forall|k: int| 0 <= k < i ==> #[trigger] views(list@)[k] != symbol@,
        decreases list@.len() - i,
    {
        if str_eq(list[i].as_str(), symbol) {
            assert(views(list@)[i as int] == symbol@);
            return true;
        }
        i = i + 1;
    }
    false
}

/// An inventory after the sound changes.
fn derive_inventory(inventory: &Vec<WeightedPhoneme>, sound_changes: &[SoundChange]) -> (r: Vec<
    WeightedPhoneme,
>)
    ensures
        phoneme_models(r@) == derived_inventory(phoneme_models(inventory@), change_models(sound_changes@)),
{
    let ghost cm = change_models(sound_changes@);
    let ghost renamed_all = phoneme_models(inventory@).map_values(
        |p: PhonemeModel| PhonemeModel { symbol: renamed_symbol(p.symbol, cm), ..p },
    );
    let mut derived: Vec<WeightedPhoneme> = Vec::new();
    let mut seen: Vec<String> = Vec::new();
    let mut i: usize = 0;
    assert(views(seen@).to_set() =~= symbol_set(renamed_all.take(0)));
    while i < inventory.len()
        invariant
            0 <= i <= inventory@.len(),
            cm == change_models(sound_changes@),
            renamed_all == phoneme_models(inventory@).map_values(
                |p: PhonemeModel| PhonemeModel { symbol: renamed_symbol(p.symbol, cm), ..p },
            ),
            phoneme_models(derived@) == first_of_each_symbol(renamed_all.take(i as int)),
            views(seen@).to_set() == symbol_set(renamed_all.take(i as int)),
        decreases inventory@.len() - i,
    {
        let symbol = renamed(&inventory[i].symbol, sound_changes);
        let ghost t = renamed_all.take(i as int + 1);
        assert(t.drop_last() =~= renamed_all.take(i as int));
        assert(t.last() == renamed_all[i as int]);
        assert(renamed_all[i as int].symbol == symbol@);
        proof {
            lemma_symbol_set_contains(renamed_all.take(i as int), symbol@);
            assert(views(seen@).contains(symbol@) == views(seen@).to_set().contains(symbol@));
            assert forall|j: int| 0 <= j < t.len() - 1 implies #[trigger] t[j].symbol
                == renamed_all.take(i as int)[j].symbol by {}
        }
        if !contains_symbol(&seen, symbol.as_str()) {
            assert(!(exists|j: int| 0 <= j < t.len() - 1 && #[trigger] t[j].symbol == t.last().symbol));
            let mut p = inventory[i].clone();
            p.symbol = symbol.clone();
            assert(p@ == renamed_all[i as int]);
            assert(phoneme_models(derived@.push(p)) =~= phoneme_models(derived@).push(p@));
            derived.push(p);
            proof {
                crate::text::lemma_views_push(seen@, symbol);
                lemma_to_set_push(views(seen@), symbol@);
            }
            seen.push(symbol);
        } else {
            let ghost j = choose|j: int| 0 <= j < i && #[trigger] renamed_all.take(i as int)[j].symbol == symbol@;
            assert(t[j].symbol == t.last().symbol);
        }
        proof {
            lemma_symbol_set_push(renamed_all.take(i as int), renamed_all[i as int]);
            assert(renamed_all.take(i as int).push(renamed_all[i as int]) =~= t);
            if views(seen@).to_set() != symbol_set(t) {
                assert(symbol_set(renamed_all.take(i as int)).contains(symbol@));
                assert(symbol_set(t) =~= symbol_set(renamed_all.take(i as int)));
            }
        }
        i = i + 1;
    }
    assert(renamed_all.take(inventory@.len() as int) =~= renamed_all);
    derived
}

/// A phonology after the sound changes.
fn derive_phonology(phonology: &Phonology, sound_changes: &[SoundChange]) -> (r: Phonology)
    ensures
        r@ == derived_phonology(phonology@, change_models(sound_changes@)),
{
    Phonology {
        vowels: derive_inventory(&phonology.vowels, sound_changes),
        onset_consonants: derive_inventory(&phonology.onset_consonants, sound_changes),
        clusters: derive_inventory(&phonology.clusters, sound_changes),
        coda_consonants: derive_inventory(&phonology.coda_consonants, sound_changes),
        templates: clone_templates(&phonology.templates),
        constraints: phonology.constraints.clone(),
    }
}

// ---------------------------------------------------------------------------
// Generation
// ---------------------------------------------------------------------------

/// The abstract content of a blueprint.
pub struct BlueprintModel {
    pub name: Seq<char>,
    pub phonology: PhonologyModel,
    pub grammar: GrammarModel,
    pub sound_changes: Seq<SoundChangeModel>,
    pub mapper: MapperModel,
}

/// What a language is generated from.
#[derive(Clone, Debug)]
pub struct LanguageBlueprint {
    pub name: String,
    pub phonology: Phonology,
    pub grammar: Grammar,
    pub sound_changes: Vec<SoundChange>,
    pub semantic_mapper: SemanticMapper,
}

impl View for LanguageBlueprint {
    type V = BlueprintModel;

    open spec fn view(&self) -> BlueprintModel {
        BlueprintModel {
            name: self.name@,
            phonology: self.phonology@,
            grammar: self.grammar@,
            sound_changes: change_models(self.sound_changes@),
            mapper: self.semantic_mapper@,
        }
    }
}

impl LanguageBlueprint {
    pub fn new<S: IntoText>(
        name: S,
        phonology: Phonology,
        grammar: Grammar,
        sound_changes: Vec<SoundChange>,
        semantic_mapper: SemanticMapper,
    ) -> (r: Self)
        ensures
            r@ == (BlueprintModel {
                name: name.text_view(),
                phonology: phonology@,
                grammar: grammar@,
                sound_changes: change_models(sound_changes@),
                mapper: semantic_mapper@,
            }),
    {
        LanguageBlueprint {
            name: name.into_text(),
            phonology,
            grammar,
            sound_changes,
            semantic_mapper,
        }
    }
}

/// The first `n` lexemes after the sound changes, each form changed in turn, and the
/// state afterwards.
pub open spec fn evolve_lexicon(
    lex: Seq<LexemeModel>,
    changes: Seq<SoundChangeModel>,
    ph: PhonologyModel,
    s: u64,
    n: nat,
) -> (Seq<LexemeModel>, u64)
    decreases n,
{
    if n == 0 {
        (Seq::empty(), s)
    } else {
        let (done, s1) = evolve_lexicon(lex, changes, ph, s, (n - 1) as nat);
        let (form, s2) = apply_sequence_outcome(changes, lex[n - 1].form, ph, s1);
        (done.push(LexemeModel { concept: lex[n - 1].concept, form }), s2)
    }
}

/// The language generated from a blueprint from state `s`, when lexicon generation terminates.
pub open spec fn generated_language(bp: BlueprintModel, config: WordGenerationConfig, s: u64) -> (
    LanguageModel,
    u64,
) {
    let (lex, used, s1) = lexicon_outcome(bp.phonology, config, bp.mapper.concept_order, s).unwrap();
    let (evolved, s2) = evolve_lexicon(lex, bp.sound_changes, bp.phonology, s1, lex.len());
    (
        LanguageModel {
            name: bp.name,
            phonology: derived_phonology(bp.phonology, bp.sound_changes),
            grammar: bp.grammar,
            lexicon: evolved,
            sound_changes: bp.sound_changes,
            mapper: bp.mapper,
        },
        s2,
    )
}

/// Generates languages from blueprints.
#[derive(Debug, Default)]
pub struct LanguageEngine;

impl LanguageEngine {
    /// The language made from the blueprint and the words generated for its concepts:
    /// each word changed by the sound changes in turn, and the phonology derived.
    fn evolve_language(blueprint: &LanguageBlueprint, generated: Vec<Lexeme>, rng: &mut Random) -> (r:
        Language)
        ensures
            ({
                let (evolved, s2) = evolve_lexicon(
                    lexeme_models(generated@),
                    blueprint@.sound_changes,
                    blueprint@.phonology,
                    old(rng)@,
                    generated@.len(),
                );
                r@ == (LanguageModel {
                    name: blueprint@.name,
                    phonology: derived_phonology(blueprint@.phonology, blueprint@.sound_changes),
                    grammar: blueprint@.grammar,
                    lexicon: evolved,
                    sound_changes: blueprint@.sound_changes,
                    mapper: blueprint@.mapper,
                }) && final(rng)@ == s2
            }),
    {
        let ghost base = lexeme_models(generated@);
        let ghost after_lexicon = rng@;
        let mut lexicon: Vec<Lexeme> = Vec::new();
        let mut i: usize = 0;
        while i < generated.len()
            invariant
                0 <= i <= generated@.len(),
                base == lexeme_models(generated@),
                (lexeme_models(lexicon@), rng@) == evolve_lexicon(
                    base,
                    blueprint@.sound_changes,
                    blueprint@.phonology,
                    after_lexicon,
                    i as nat,
                ),
            decreases generated@.len() - i,
        {
            let form = SoundChange::apply_sequence(
                blueprint.sound_changes.as_slice(),
                &generated[i].form,
                &blueprint.phonology,
                rng,
            );
            let lexeme = Lexeme::new(generated[i].concept_id.clone(), form);
            assert(lexeme_models(lexicon@.push(lexeme)) =~= lexeme_models(lexicon@).push(lexeme@));
            lexicon.push(lexeme);
            i = i + 1;
        }
        let mut sound_changes: Vec<SoundChange> = Vec::new();
        let mut k: usize = 0;
        while k < blueprint.sound_changes.len()
            invariant
                0 <= k <= blueprint.sound_changes@.len(),
                change_models(sound_changes@) =~= change_models(blueprint.sound_changes@).take(k as int),
            decreases blueprint.sound_changes@.len() - k,
        {
            let c = blueprint.sound_changes[k].clone();
            assert(change_models(sound_changes@.push(c)) =~= change_models(sound_changes@).push(c@));
            sound_changes.push(c);
            k = k + 1;
        }
        assert(change_models(blueprint.sound_changes@).take(blueprint.sound_changes@.len() as int)
            =~= change_models(blueprint.sound_changes@));
        Language {
            name: blueprint.name.clone(),
            phonology: derive_phonology(&blueprint.phonology, blueprint.sound_changes.as_slice()),
            grammar: blueprint.grammar.clone(),
            lexicon,
            sound_changes,
            semantic_mapper: blueprint.semantic_mapper.clone(),
        }
    }


    /// Generates a word for every concept of the blueprint (in registration order, with
    /// pairwise distinct texts), applies the sound changes to each word in turn, and
    /// derives the phonology after the changes; `None` when word generation gives up at
    /// its attempt limit first.
    pub fn try_generate_language(
        &self,
        blueprint: &LanguageBlueprint,
        config: WordGenerationConfig,
        rng: &mut Random,
    ) -> (r: Option<Language>)
        requires
            weights_fit(blueprint@.phonology),
            config_drawable(config),
            lexicon_stops(
                blueprint@.phonology,
                config,
                blueprint@.mapper.concept_order,
                old(rng)@,
                blueprint@.mapper.concept_order.len(),
            ),
        ensures
            r is Some <==> lexicon_outcome(
                blueprint@.phonology,
                config,
                blueprint@.mapper.concept_order,
                old(rng)@,
            ) is Some,
            r matches Some(l) ==> (l@, final(rng)@) == generated_language(
                blueprint@,
                config,
                old(rng)@,
            ),
    {
        let generator = LexiconGenerator::new(&blueprint.phonology);
        let concepts = blueprint.semantic_mapper.concept_ids();
        let generated = match generator.try_generate_lexicon(concepts.as_slice(), config, rng) {
            Some(v) => v,
            None => return None,
        };
        proof {
            let (lex, used, s1) = lexicon_outcome(
                blueprint@.phonology,
                config,
                blueprint@.mapper.concept_order,
                old(rng)@,
            ).unwrap();
            assert(lexeme_models(generated@) == lex);
        }
        Some(LanguageEngine::evolve_language(blueprint, generated, rng))
    }

    /// Generates a word for every concept of the blueprint (in registration order, with
    /// pairwise distinct texts), applies the sound changes to each word in turn, and
    /// derives the phonology after the changes; word generation must succeed.
    pub fn generate_language(
        &self,
        blueprint: &LanguageBlueprint,
        config: WordGenerationConfig,
        rng: &mut Random,
    ) -> (r: Language)
        requires
            weights_fit(blueprint@.phonology),
            config_drawable(config),
            lexicon_outcome(blueprint@.phonology, config, blueprint@.mapper.concept_order, old(rng)@)
                is Some,
        ensures
            (r@, final(rng)@) == generated_language(blueprint@, config, old(rng)@),
    {
        let generator = LexiconGenerator::new(&blueprint.phonology);
        let concepts = blueprint.semantic_mapper.concept_ids();
        let generated = generator.generate_lexicon(concepts.as_slice(), config, rng);
        LanguageEngine::evolve_language(blueprint, generated, rng)
    }
}

/// Sound changes keep each lexeme's concept and the number of lexemes.
pub proof fn law_evolution_keeps_concepts(
    lex: Seq<LexemeModel>,
    changes: Seq<SoundChangeModel>,
    ph: PhonologyModel,
    s: u64,
    n: nat,
)
    requires
        n <= lex.len(),
    ensures
        evolve_lexicon(lex, changes, ph, s, n).0.len() == n,
        forall|i: int|
            0 <= i < n ==> #[trigger] evolve_lexicon(lex, changes, ph, s, n).0[i].concept
                == lex[i].concept,
    decreases n,
{
    if n > 0 {
        law_evolution_keeps_concepts(lex, changes, ph, s, (n - 1) as nat);
    }
}

/// A generated language has one lexeme per registered concept, in registration order,
/// and keeps the blueprint's name, grammar, sound changes and concepts.
pub proof fn law_generated_language_covers_every_concept(
    bp: BlueprintModel,
    config: WordGenerationConfig,
    s: u64,
)
    requires
        lexicon_outcome(bp.phonology, config, bp.mapper.concept_order, s) is Some,
    ensures
        generated_language(bp, config, s).0.lexicon.len() == bp.mapper.concept_order.len(),
        forall|i: int|
            0 <= i < bp.mapper.concept_order.len() ==> #[trigger] generated_language(
                bp,
                config,
                s,
            ).0.lexicon[i].concept == bp.mapper.concept_order[i],
        generated_language(bp, config, s).0.name == bp.name,
        generated_language(bp, config, s).0.grammar == bp.grammar,
        generated_language(bp, config, s).0.sound_changes == bp.sound_changes,
        generated_language(bp, config, s).0.mapper == bp.mapper,
{
    let concepts = bp.mapper.concept_order;
    crate::lexicon::law_lexicon_is_complete_and_distinct(
        bp.phonology,
        config,
        concepts,
        s,
        concepts.len(),
    );
    let (lex, used, s1) = lexicon_outcome(bp.phonology, config, concepts, s).unwrap();
    law_evolution_keeps_concepts(lex, bp.sound_changes, bp.phonology, s1, lex.len());
}

} // verus!
