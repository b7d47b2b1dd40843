use vstd::prelude::*;

use crate::form::{clone_strings, form_text, join, lemma_join_push, WordForm};
use crate::text::{push_str, views};

verus! {

/// Order of subject, object and verb in a clause.
#[derive(Clone, Copy, Debug, PartialEq, Eq, Structural)]
pub enum WordOrder {
    SOV,
    SVO,
    VSO,
}

/// Kind of phrase a syntax branch forms.
#[derive(Clone, Copy, Debug, PartialEq, Eq, Structural)]
pub enum PhraseCategory {
    Sentence,
    NounPhrase,
    VerbPhrase,
}

/// A syntax tree over word forms.
#[derive(Debug, PartialEq, Eq)]
pub enum SyntaxNode {
    Leaf(WordForm),
    Branch { category: PhraseCategory, children: Vec<SyntaxNode> },
}

impl SyntaxNode {
    pub fn leaf(word: WordForm) -> (r: Self)
        ensures
            r == SyntaxNode::Leaf(word),
    {
        SyntaxNode::Leaf(word)
    }

    pub fn branch(category: PhraseCategory, children: Vec<SyntaxNode>) -> (r: Self)
        ensures
            r == (SyntaxNode::Branch { category, children }),
    {
        SyntaxNode::Branch { category, children }
    }
}

/// Kinds of grammatical features.
#[derive(Clone, Copy, Debug, PartialEq, Eq, Hash, Structural)]
pub enum FeatureType {
    Number,
    Tense,
    Person,
}

/// A grammatical feature value.
#[derive(Clone, Copy, Debug, PartialEq, Eq, Hash, Structural)]
pub enum FeatureValue {
    Singular,
    Plural,
    Present,
    Past,
    Future,
    First,
    Second,
    Third,
}

pub open spec fn is_number_value(f: FeatureValue) -> bool {
    f == FeatureValue::Singular || f == FeatureValue::Plural
}

pub open spec fn is_tense_value(f: FeatureValue) -> bool {
    f == FeatureValue::Present || f == FeatureValue::Past || f == FeatureValue::Future
}

pub open spec fn is_person_value(f: FeatureValue) -> bool {
    f == FeatureValue::First || f == FeatureValue::Second || f == FeatureValue::Third
}

impl FeatureValue {
    pub fn is_number(&self) -> (r: bool)
        ensures
            r == is_number_value(*self),
    {
        match self {
            FeatureValue::Singular | FeatureValue::Plural => true,
            _ => false,
        }
    }

    pub fn is_tense(&self) -> (r: bool)
        ensures
            r == is_tense_value(*self),
    {
        match self {
            FeatureValue::Present | FeatureValue::Past | FeatureValue::Future => true,
            _ => false,
        }
    }

    pub fn is_person(&self) -> (r: bool)
        ensures
            r == is_person_value(*self),
    {
        match self {
            FeatureValue::First | FeatureValue::Second | FeatureValue::Third => true,
            _ => false,
        }
    }
}

/// The abstract content of a paradigm rule.
pub struct RuleModel {
    pub feature: FeatureValue,
    pub prefix: Option<Seq<Seq<char>>>,
    pub suffix: Option<Seq<Seq<char>>>,
}

/// Affixes that mark a feature value.
#[derive(Debug, PartialEq, Eq)]
pub struct ParadigmRule {
    pub feature: FeatureValue,
    pub prefix: Option<Vec<String>>,
    pub suffix: Option<Vec<String>>,
}

pub open spec fn opt_views(o: Option<Vec<String>>) -> Option<Seq<Seq<char>>> {
    match o {
        Some(v) => Some(views(v@)),
        None => None,
    }
}

impl View for ParadigmRule {
    type V = RuleModel;

    open spec fn view(&self) -> RuleModel {
        RuleModel {
            feature: self.feature,
            prefix: opt_views(self.prefix),
            suffix: opt_views(self.suffix),
        }
    }
}

fn clone_opt_strings(o: &Option<Vec<String>>) -> (r: Option<Vec<String>>)
    ensures
        opt_views(r) == opt_views(*o),
{
    match o {
        Some(v) => Some(clone_strings(v)),
        None => None,
    }
}

impl Clone for ParadigmRule {
    fn clone(&self) -> (r: Self)
        ensures
            r@ == self@,
    {
        ParadigmRule {
            feature: self.feature,
            prefix: clone_opt_strings(&self.prefix),
            suffix: clone_opt_strings(&self.suffix),
        }
    }
}

pub open spec fn rule_models(v: Seq<ParadigmRule>) -> Seq<RuleModel> {
    v.map_values(|r: ParadigmRule| r@)
}

/// Inflects words by feature values.
#[derive(Debug, Default, PartialEq, Eq)]
pub struct MorphologyEngine {
    pub rules: Vec<ParadigmRule>,
}

impl View for MorphologyEngine {
    type V = Seq<RuleModel>;

    open spec fn view(&self) -> Seq<RuleModel> {
        rule_models(self.rules@)
    }
}

impl Clone for MorphologyEngine {
    fn clone(&self) -> (r: Self)
        ensures
            r@ == self@,
    {
        let mut rules: Vec<ParadigmRule> = Vec::new();
        let mut i: usize = 0;
        while i < self.rules.len()
            invariant
                0 <= i <= self.rules@.len(),
                rule_models(rules@) =~= rule_models(self.rules@).take(i as int),
            decreases self.rules@.len() - i,
        {
            let r = self.rules[i].clone();
            assert(rule_models(rules@.push(r)) =~= rule_models(rules@).push(r@));
            rules.push(r);
            i = i + 1;
        }
        MorphologyEngine { rules }
    }
}

/// The first rule for `feature`.
pub open spec fn first_rule(rules: Seq<RuleModel>, feature: FeatureValue) -> Option<RuleModel>
    decreases rules.len(),
{
    if rules.len() == 0 {
        None
    } else if rules[0].feature == feature {
        Some(rules[0])
    } else {
        first_rule(rules.drop_first(), feature)
    }
}

/// `word` with the affixes of the first rule for `feature` (unchanged when there is none).
pub open spec fn inflect_once(rules: Seq<RuleModel>, word: Seq<Seq<char>>, feature: FeatureValue) -> Seq<
    Seq<char>,
> {
    match first_rule(rules, feature) {
        None => word,
        Some(rule) => {
            let w1 = match rule.prefix {
                Some(p) => p + word,
                None => word,
            };
            match rule.suffix {
                Some(s) => w1 + s,
                None => w1,
            }
        },
    }
}

/// `word` inflected for each feature value in turn.
pub open spec fn inflect(rules: Seq<RuleModel>, word: Seq<Seq<char>>, features: Seq<FeatureValue>) -> Seq<
    Seq<char>,
>
    decreases features.len(),
{
    if features.len() == 0 {
        word
    } else {
        inflect_once(rules, inflect(rules, word, features.drop_last()), features.last())
    }
}

impl MorphologyEngine {
    /// Inflects `word` for each feature value in turn, using the first rule for each.
    pub fn apply(&self, word: &WordForm, features: &[FeatureValue]) -> (r: WordForm)
        ensures
            r@ == inflect(self@, word@, features@),
    {
        let mut result = word.clone();
        let mut i: usize = 0;
        while i < features.len()
            invariant
                0 <= i <= features@.len(),
                result@ == inflect(self@, word@, features@.take(i as int)),
            decreases features@.len() - i,
        {
            let feature = features[i];
            proof {
                assert(features@.take(i as int + 1).drop_last() =~= features@.take(i as int));
            }
            let ghost before = result@;
            let mut k: usize = 0;
            let mut found = false;
            assert(self@.skip(0) =~= self@);
            while k < self.rules.len() && !found
                invariant
                    0 <= k <= self.rules@.len(),
                    !found ==> first_rule(self@, feature) == first_rule(self@.skip(k as int), feature),
                    !found ==> result@ == before,
                    found ==> result@ == inflect_once(self@, before, feature),
                decreases self.rules@.len() - k, if found { 0int } else { 1int },
            {
                let ghost rest = self@.skip(k as int);
                assert(rest[0] == self.rules@[k as int]@);
                if self.rules[k].feature == feature {
                    let rule = &self.rules[k];
                    if let Some(prefix) = &rule.prefix {
                        result = result.with_prefix(clone_strings(prefix));
                    }
                    if let Some(suffix) = &rule.suffix {
                        result = result.with_suffix(clone_strings(suffix));
                    }
                    found = true;
                } else {
                    assert(rest.drop_first() =~= self@.skip(k as int + 1));
                    k = k + 1;
                }
            }
            if !found {
                assert(self@.skip(k as int).len() == 0);
            }
            i = i + 1;
        }
        assert(features@.take(features@.len() as int) =~= features@);
        result
    }
}

/// The abstract content of a grammar.
pub struct GrammarModel {
    pub word_order: WordOrder,
    pub rules: Seq<RuleModel>,
}

/// Word order and morphology of a language.
#[derive(Debug, PartialEq, Eq)]
pub struct Grammar {
    pub word_order: WordOrder,
    pub morphology: MorphologyEngine,
}

impl View for Grammar {
    type V = GrammarModel;

    open spec fn view(&self) -> GrammarModel {
        GrammarModel { word_order: self.word_order, rules: self.morphology@ }
    }
}

impl Clone for Grammar {
    fn clone(&self) -> (r: Self)
        ensures
            r@ == self@,
    {
        Grammar { word_order: self.word_order, morphology: self.morphology.clone() }
    }
}

/// The feature values of `features` that pass `keep`, in order.
pub open spec fn select(features: Seq<FeatureValue>, keep: spec_fn(FeatureValue) -> bool) -> Seq<
    FeatureValue,
>
    decreases features.len(),
{
    if features.len() == 0 {
        Seq::empty()
    } else if keep(features.last()) {
        select(features.drop_last(), keep).push(features.last())
    } else {
        select(features.drop_last(), keep)
    }
}

/// The feature values that percolate to the `i`-th constituent of a three-part clause:
/// person to the subject, number to the object, tense to the verb.
pub open spec fn clause_features(features: Seq<FeatureValue>, i: int) -> Seq<FeatureValue> {
    if i == 0 {
        select(features, |f: FeatureValue| is_person_value(f))
    } else if i == 1 {
        select(features, |f: FeatureValue| is_number_value(f))
    } else {
        select(features, |f: FeatureValue| is_tense_value(f))
    }
}

/// Subject, object and verb words arranged by the word order.
pub open spec fn arrange(
    order: WordOrder,
    s: Seq<Seq<Seq<char>>>,
    o: Seq<Seq<Seq<char>>>,
    v: Seq<Seq<Seq<char>>>,
) -> Seq<Seq<Seq<char>>> {
    match order {
        WordOrder::SOV => s + o + v,
        WordOrder::SVO => s + v + o,
        WordOrder::VSO => v + s + o,
    }
}

/// The inflected words of a syntax tree, in surface order.
pub open spec fn realize(g: GrammarModel, node: SyntaxNode, features: Seq<FeatureValue>) -> Seq<
    Seq<Seq<char>>,
>
    decreases node, 1int,
{
    match node {
        SyntaxNode::Leaf(word) => seq![inflect(g.rules, word@, features)],
        SyntaxNode::Branch { category, children } => {
            if category == PhraseCategory::Sentence && children@.len() == 3 {
                arrange(
                    g.word_order,
                    realize(g, children@[0], clause_features(features, 0)),
                    realize(g, children@[1], clause_features(features, 1)),
                    realize(g, children@[2], clause_features(features, 2)),
                )
            } else {
                realize_all(g, children@, features)
            }
        },
    }
}

/// The realizations of `nodes`, each with all of `features`, concatenated.
pub open spec fn realize_all(g: GrammarModel, nodes: Seq<SyntaxNode>, features: Seq<FeatureValue>) -> Seq<
    Seq<Seq<char>>,
>
    decreases nodes, 0int,
{
    if nodes.len() == 0 {
        Seq::empty()
    } else {
        realize_all(g, nodes.drop_last(), features) + realize(g, nodes.last(), features)
    }
}


/// The number of leaves of a syntax tree.
pub open spec fn leaf_count(node: SyntaxNode) -> nat
    decreases node, 1int,
{
    match node {
        SyntaxNode::Leaf(_) => 1,
        SyntaxNode::Branch { category: _, children } => leaf_count_all(children@),
    }
}

/// The number of leaves of a list of syntax trees.
pub open spec fn leaf_count_all(nodes: Seq<SyntaxNode>) -> nat
    decreases nodes, 0int,
{
    if nodes.len() == 0 {
        0
    } else {
        leaf_count_all(nodes.drop_last()) + leaf_count(nodes.last())
    }
}

/// Each leaf of a syntax tree becomes exactly one word, whatever the word order and the
/// feature values.
pub proof fn law_one_word_per_leaf(g: GrammarModel, node: SyntaxNode, features: Seq<FeatureValue>)
    ensures
        realize(g, node, features).len() == leaf_count(node),
    decreases node, 1int,
{
    match node {
        SyntaxNode::Leaf(_) => {},
        SyntaxNode::Branch { category, children } => {
            if category == PhraseCategory::Sentence && children@.len() == 3 {
                assert(decreases_to!(node => node->children));
                vstd::std_specs::vec::axiom_vec_index_decreases(children, 0);
                vstd::std_specs::vec::axiom_vec_index_decreases(children, 1);
                vstd::std_specs::vec::axiom_vec_index_decreases(children, 2);
                law_one_word_per_leaf(g, children@[0], clause_features(features, 0));
                law_one_word_per_leaf(g, children@[1], clause_features(features, 1));
                law_one_word_per_leaf(g, children@[2], clause_features(features, 2));
                let c = children@;
                assert(c.take(1).drop_last() =~= c.take(0));
                assert(c.take(2).drop_last() =~= c.take(1));
                assert(c.drop_last() =~= c.take(2));
                assert(leaf_count_all(c.take(0)) == 0);
                assert(leaf_count_all(c.take(1)) == leaf_count(c[0]));
                assert(leaf_count_all(c.take(2)) == leaf_count(c[0]) + leaf_count(c[1]));
                assert(leaf_count_all(c) == leaf_count(c[0]) + leaf_count(c[1]) + leaf_count(c[2]));
            } else {
                assert(decreases_to!(node => node->children));
                lemma_words_of_all(g, children@, features);
            }
        },
    }
}

proof fn lemma_words_of_all(g: GrammarModel, nodes: Seq<SyntaxNode>, features: Seq<FeatureValue>)
    ensures
        realize_all(g, nodes, features).len() == leaf_count_all(nodes),
    decreases nodes, 0int,
{
    if nodes.len() > 0 {
        lemma_words_of_all(g, nodes.drop_last(), features);
        law_one_word_per_leaf(g, nodes.last(), features);
    }
}

/// A three-part sentence is its subject, object and verb phrases (children in that
/// order) placed by the word order: subject, object, verb for SOV; subject, verb, object
/// for SVO; verb, subject, object for VSO. Person values go to the subject, number
/// values to the object and tense values to the verb.
pub proof fn law_word_order_places_parts(g: GrammarModel, node: SyntaxNode, features: Seq<FeatureValue>)
    requires
        node matches SyntaxNode::Branch { category, children } && category
            == PhraseCategory::Sentence && children@.len() == 3,
    ensures
        ({
            let c = node->children@;
            let subject = realize(g, c[0], select(features, |f: FeatureValue| is_person_value(f)));
            let object = realize(g, c[1], select(features, |f: FeatureValue| is_number_value(f)));
            let verb = realize(g, c[2], select(features, |f: FeatureValue| is_tense_value(f)));
            &&& g.word_order == WordOrder::SOV ==> realize(g, node, features) == subject + object + verb
            &&& g.word_order == WordOrder::SVO ==> realize(g, node, features) == subject + verb + object
            &&& g.word_order == WordOrder::VSO ==> realize(g, node, features) == verb + subject + object
        }),
{
}

/// Inflection only adds affixes around the stem: the inflected word is the word itself
/// with some symbols before it and some after it.
pub proof fn law_inflection_keeps_stem(
    rules: Seq<RuleModel>,
    word: Seq<Seq<char>>,
    features: Seq<FeatureValue>,
)
    ensures
        exists|before: Seq<Seq<char>>, after: Seq<Seq<char>>|
            inflect(rules, word, features) == before + word + after,
    decreases features.len(),
{
    if features.len() == 0 {
        assert(inflect(rules, word, features) == Seq::<Seq<char>>::empty() + word + Seq::<
            Seq<char>,
        >::empty());
    } else {
        law_inflection_keeps_stem(rules, word, features.drop_last());
        let (b, a) = choose|b: Seq<Seq<char>>, a: Seq<Seq<char>>|
            inflect(rules, word, features.drop_last()) == b + word + a;
        let mid = inflect(rules, word, features.drop_last());
        let f = features.last();
        match first_rule(rules, f) {
            None => {
                assert(inflect(rules, word, features) == b + word + a);
            },
            Some(rule) => {
                let p = match rule.prefix {
                    Some(p) => p,
                    None => Seq::empty(),
                };
                let q = match rule.suffix {
                    Some(q) => q,
                    None => Seq::empty(),
                };
                assert(inflect(rules, word, features) =~= (p + b) + word + (a + q));
            },
        }
    }
}

/// Without feature values, or without a rule for any of them, a word is left as it is.
pub proof fn law_no_rule_no_change(
    rules: Seq<RuleModel>,
    word: Seq<Seq<char>>,
    features: Seq<FeatureValue>,
)
    requires
        forall|k: int| 0 <= k < features.len() ==> first_rule(rules, #[trigger] features[k]) is None,
    ensures
        inflect(rules, word, features) == word,
    decreases features.len(),
{
    if features.len() > 0 {
        law_no_rule_no_change(rules, word, features.drop_last());
        assert(first_rule(rules, features[features.len() - 1]) is None);
    }
}

impl Grammar {
    pub fn new(word_order: WordOrder, morphology: MorphologyEngine) -> (r: Self)
        ensures
            r.word_order == word_order,
            r.morphology == morphology,
    {
        Grammar { word_order, morphology }
    }

    fn select_features(features: &[FeatureValue], kind: FeatureType) -> (r: Vec<FeatureValue>)
        ensures
            r@ == (match kind {
                FeatureType::Person => clause_features(features@, 0),
                FeatureType::Number => clause_features(features@, 1),
                FeatureType::Tense => clause_features(features@, 2),
            }),
    {
        let ghost keep: spec_fn(FeatureValue) -> bool = match kind {
            FeatureType::Person => |f: FeatureValue| is_person_value(f),
            FeatureType::Number => |f: FeatureValue| is_number_value(f),
            FeatureType::Tense => |f: FeatureValue| is_tense_value(f),
        };
        let mut out: Vec<FeatureValue> = Vec::new();
        let mut i: usize = 0;
        while i < features.len()
            invariant
                0 <= i <= features@.len(),
                keep == (match kind {
                    FeatureType::Person => |f: FeatureValue| is_person_value(f),
                    FeatureType::Number => |f: FeatureValue| is_number_value(f),
                    FeatureType::Tense => |f: FeatureValue| is_tense_value(f),
                }),
                out@ == select(features@.take(i as int), keep),
            decreases features@.len() - i,
        {
            let f = features[i];
            let wanted = match kind {
                FeatureType::Person => f.is_person(),
                FeatureType::Number => f.is_number(),
                FeatureType::Tense => f.is_tense(),
            };
            assert(wanted == keep(f));
            assert(features@.take(i as int + 1).drop_last() =~= features@.take(i as int));
            if wanted {
                out.push(f);
            }
            i = i + 1;
        }
        assert(features@.take(features@.len() as int) =~= features@);
        out
    }

    /// The inflected words of `node` in surface order. In a three-part sentence, person
    /// values go to the subject, number values to the object and tense values to the
    /// verb, and the parts are arranged by the word order; elsewhere every feature
    /// value reaches every word and the parts keep their order.
    pub fn realize_node(&self, node: &SyntaxNode, features: &[FeatureValue]) -> (r: Vec<WordForm>)
        ensures
            forms_view(r@) == realize(self@, *node, features@),
        decreases node,
    {
        match node {
            SyntaxNode::Leaf(word) => {
                let inflected = self.morphology.apply(word, features);
                let mut out: Vec<WordForm> = Vec::new();
                out.push(inflected);
                assert(forms_view(out@) =~= seq![inflected@]);
                out
            },
            SyntaxNode::Branch { category, children } => {
                let mut parts: Vec<Vec<WordForm>> = Vec::new();
                if *category == PhraseCategory::Sentence && children.len() == 3 {
                    let person = Grammar::select_features(features, FeatureType::Person);
                    let number = Grammar::select_features(features, FeatureType::Number);
                    let tense = Grammar::select_features(features, FeatureType::Tense);
                    let s = self.realize_node(&children[0], person.as_slice());
                    let o = self.realize_node(&children[1], number.as_slice());
                    let v = self.realize_node(&children[2], tense.as_slice());
                    parts.push(s);
                    parts.push(o);
                    parts.push(v);
                    assert(parts@ =~= seq![s, o, v]);
                    let r = self.order_sentence(parts);
                    assert(forms_view(r@) == realize(self@, *node, features@));
                    return r;
                } else {
                    let mut i: usize = 0;
                    assert(concat_views(parts@) =~= Seq::empty());
                    while i < children.len()
                        invariant
                            0 <= i <= children@.len(),
                            parts@.len() == i,
                            *node == (SyntaxNode::Branch { category: *category, children: *children }),
                            concat_views(parts@) == realize_all(
                                self@,
                                children@.take(i as int),
                                features@,
                            ),
                        decreases children@.len() - i,
                    {
                        proof {
                            vstd::std_specs::vec::axiom_vec_index_decreases(*children, i as int);
                            assert(decreases_to!(*node => node->children));
                        }
                        let part = self.realize_node(&children[i], features);
                        proof {
                            assert(children@.take(i as int + 1).drop_last() =~= children@.take(
                                i as int,
                            ));
                            assert(parts@.push(part).drop_last() =~= parts@);
                        }
                        parts.push(part);
                        i = i + 1;
                    }
                    assert(children@.take(children@.len() as int) =~= children@);
                }
                assert(concat_views(parts@) == realize(self@, *node, features@));
                if *category == PhraseCategory::Sentence {
                    self.order_sentence(parts)
                } else {
                    flatten_forms(parts)
                }
            },
        }
    }

    /// Subject, object and verb words arranged by the word order; parts of a sentence
    /// that has not exactly three are kept in their order.
    fn order_sentence(&self, children: Vec<Vec<WordForm>>) -> (r: Vec<WordForm>)
        ensures
            forms_view(r@) == (if children@.len() == 3 {
                arrange(
                    self.word_order,
                    forms_view(children@[0]@),
                    forms_view(children@[1]@),
                    forms_view(children@[2]@),
                )
            } else {
                concat_views(children@)
            }),
    {
        if children.len() != 3 {
            return flatten_forms(children);
        }
        let mut children = children;
        let ghost parts = children@;
        let v = children.pop().unwrap();
        let o = children.pop().unwrap();
        let s = children.pop().unwrap();
        assert(s == parts[0] && o == parts[1] && v == parts[2]);
        let mut out: Vec<WordForm> = Vec::new();
        assert(forms_view(out@) =~= Seq::empty());
        match self.word_order {
            WordOrder::SOV => {
                append_forms(&mut out, s);
                append_forms(&mut out, o);
                append_forms(&mut out, v);
            },
            WordOrder::SVO => {
                append_forms(&mut out, s);
                append_forms(&mut out, v);
                append_forms(&mut out, o);
            },
            WordOrder::VSO => {
                append_forms(&mut out, v);
                append_forms(&mut out, s);
                append_forms(&mut out, o);
            },
        }
        out
    }

    /// The realized words' texts, separated by single spaces.
    pub fn render_node(&self, node: &SyntaxNode, features: &[FeatureValue]) -> (r: String)
        ensures
            r@ == join(realize(self@, *node, features@).map_values(|w: Seq<Seq<char>>| form_text(w)), " "@),
    {
        let words = self.realize_node(node, features);
        render_words(&words)
    }
}

pub open spec fn forms_view(v: Seq<WordForm>) -> Seq<Seq<Seq<char>>> {
    v.map_values(|w: WordForm| w@)
}

/// The forms of all the lists of `parts`, in order.
pub open spec fn concat_views(parts: Seq<Vec<WordForm>>) -> Seq<Seq<Seq<char>>>
    decreases parts.len(),
{
    if parts.len() == 0 {
        Seq::empty()
    } else {
        concat_views(parts.drop_last()) + forms_view(parts.last()@)
    }
}

/// All the forms of `parts`, in order.
fn flatten_forms(parts: Vec<Vec<WordForm>>) -> (r: Vec<WordForm>)
    ensures
        forms_view(r@) == concat_views(parts@),
{
    let mut parts = parts;
    let ghost all = parts@;
    let mut rest: Vec<Vec<WordForm>> = Vec::new();
    while parts.len() > 0
        invariant
            all == parts@ + rest@.reverse(),
        decreases parts@.len(),
    {
        let last = parts.pop().unwrap();
        proof {
            assert(rest@.push(last).reverse() =~= seq![last] + rest@.reverse());
        }
        rest.push(last);
    }
    let mut out: Vec<WordForm> = Vec::new();
    let ghost done: Seq<Vec<WordForm>> = Seq::empty();
    assert(forms_view(out@) =~= concat_views(done));
    assert(all =~= rest@.reverse());
    while rest.len() > 0
        invariant
            all == done + rest@.reverse(),
            forms_view(out@) == concat_views(done),
        decreases rest@.len(),
    {
        let next = rest.pop().unwrap();
        proof {
            assert(rest@.push(next).reverse() =~= seq![next] + rest@.reverse());
            assert((done.push(next)).drop_last() =~= done);
            done = done.push(next);
            assert(all =~= done + rest@.reverse());
        }
        append_forms(&mut out, next);
    }
    assert(done =~= all);
    out
}

/// Moves the forms of `more` to the end of `out`.
fn append_forms(out: &mut Vec<WordForm>, more: Vec<WordForm>)
    ensures
        forms_view(final(out)@) == forms_view(old(out)@) + forms_view(more@),
{
    let mut more = more;
    let ghost a = out@;
    let ghost b = more@;
    out.append(&mut more);
    assert(forms_view(a + b) =~= forms_view(a) + forms_view(b));
}

/// Texts of `words`, separated by single spaces.
pub fn render_words(words: &Vec<WordForm>) -> (r: String)
    ensures
        r@ == join(forms_view(words@).map_values(|w: Seq<Seq<char>>| form_text(w)), " "@),
{
    let ghost parts = forms_view(words@).map_values(|w: Seq<Seq<char>>| form_text(w));
    let mut out = String::new();
    let mut i: usize = 0;
    while i < words.len()
        invariant
            0 <= i <= words@.len(),
            parts == forms_view(words@).map_values(|w: Seq<Seq<char>>| form_text(w)),
            out@ == join(parts.take(i as int), " "@),
        decreases words@.len() - i,
    {
        proof {
            lemma_join_push(parts.take(i as int), " "@, parts[i as int]);
            assert(parts.take(i as int).push(parts[i as int]) =~= parts.take(i as int + 1));
        }
        if i > 0 {
            push_str(&mut out, " ");
        }
        let t = words[i].text();
        push_str(&mut out, t.as_str());
        i = i + 1;
    }
    assert(parts.take(words@.len() as int) =~= parts);
    out
}

} // verus!
