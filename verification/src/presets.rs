use vstd::prelude::*;

use crate::evolution::{BlueprintModel, LanguageBlueprint};
use crate::grammar::{
    FeatureValue, Grammar, GrammarModel, MorphologyEngine, ParadigmRule, RuleModel, WordOrder,
};
use crate::lexicon::{config_drawable, WordGenerationConfig};
use crate::mutation::{
    change_models, Environment, EnvironmentModel, Matcher, MatcherModel, SoundChange,
    SoundChangeModel,
};
use crate::phonology::{
    phoneme_models, template_models, template_weights, phoneme_weights, weights_fit,
    PhonemeClass, PhonemeFeature, PhonemeModel, Phonology, PhonologyModel,
    PhonotacticConstraints, Slot, SyllableTemplate, TemplateModel, WeightedPhoneme,
};
use crate::rng::{weight_total, Probability, Random, ZERO_SEED_STATE};
use crate::semantics::{registered, Concept, SemanticMapper};
use crate::text::owned;

verus! {

/// The glosses of the demo vocabulary.
pub const DEMO_GLOSSES: [&'static str; 11] = [
    "i",
    "you",
    "see",
    "tree",
    "river",
    "stone",
    "sky",
    "fire",
    "song",
    "king",
    "moon",
];

/// The demo glosses as character sequences.
pub open spec fn demo_glosses() -> Seq<Seq<char>> {
    seq![
        "i"@,
        "you"@,
        "see"@,
        "tree"@,
        "river"@,
        "stone"@,
        "sky"@,
        "fire"@,
        "song"@,
        "king"@,
        "moon"@,
    ]
}

/// The seed of the demo generator.
pub open spec fn demo_seed_value() -> u64 {
    0x00C0_1C11_A55Au64
}

/// The seed of the demo generator.
pub fn demo_seed() -> (r: u64)
    ensures
        r == demo_seed_value(),
{
    0x00C0_1C11_A55Au64
}

/// Words of one or two syllables.
pub fn demo_generation_config() -> (r: WordGenerationConfig)
    ensures
        r == (WordGenerationConfig { min_syllables: 1, max_syllables: 2 }),
        config_drawable(r),
{
    WordGenerationConfig::new(1, 2)
}

/// A generator seeded with the demo seed.
pub fn demo_rng() -> (r: Random)
    ensures
        r@ == demo_seed_value(),
{
    Random::new(demo_seed())
}

// ---------------------------------------------------------------------------
// The Concilium blueprint
// ---------------------------------------------------------------------------

/// A phoneme with features and an IPA rendering.
pub open spec fn phoneme_model(
    symbol: Seq<char>,
    weight: u32,
    features: Seq<PhonemeFeature>,
    ipa: Seq<char>,
) -> PhonemeModel {
    PhonemeModel { symbol, weight, features, ipa: Some(ipa) }
}

pub open spec fn concilium_vowels() -> Seq<PhonemeModel> {
    seq![
        phoneme_model("a"@, 5, seq![PhonemeFeature::Low, PhonemeFeature::Back], "ɑ"@),
        phoneme_model("e"@, 4, seq![PhonemeFeature::Front], "e"@),
        phoneme_model("i"@, 3, seq![PhonemeFeature::High, PhonemeFeature::Front], "i"@),
        phoneme_model("o"@, 3, seq![PhonemeFeature::Back], "o"@),
        phoneme_model("u"@, 2, seq![PhonemeFeature::High, PhonemeFeature::Back], "u"@),
    ]
}

pub open spec fn concilium_onsets() -> Seq<PhonemeModel> {
    seq![
        phoneme_model("l"@, 4, seq![PhonemeFeature::Approximant, PhonemeFeature::Alveolar, PhonemeFeature::Voiced], "l"@),
        phoneme_model("m"@, 4, seq![PhonemeFeature::Nasal, PhonemeFeature::Labial, PhonemeFeature::Voiced], "m"@),
        phoneme_model("n"@, 4, seq![PhonemeFeature::Nasal, PhonemeFeature::Alveolar, PhonemeFeature::Voiced], "n"@),
        phoneme_model("r"@, 4, seq![PhonemeFeature::Approximant, PhonemeFeature::Alveolar, PhonemeFeature::Voiced], "r"@),
        phoneme_model("k"@, 3, seq![PhonemeFeature::Plosive, PhonemeFeature::Velar, PhonemeFeature::Voiceless], "k"@),
        phoneme_model("t"@, 3, seq![PhonemeFeature::Plosive, PhonemeFeature::Alveolar, PhonemeFeature::Voiceless], "t"@),
        phoneme_model("g"@, 2, seq![PhonemeFeature::Plosive, PhonemeFeature::Velar, PhonemeFeature::Voiced], "ɡ"@),
        phoneme_model("d"@, 2, seq![PhonemeFeature::Plosive, PhonemeFeature::Alveolar, PhonemeFeature::Voiced], "d"@),
        phoneme_model("s"@, 3, seq![PhonemeFeature::Fricative, PhonemeFeature::Alveolar, PhonemeFeature::Voiceless], "s"@),
        phoneme_model("v"@, 2, seq![PhonemeFeature::Fricative, PhonemeFeature::Labial, PhonemeFeature::Voiced], "v"@),
    ]
}

pub open spec fn concilium_clusters() -> Seq<PhonemeModel> {
    seq![
        phoneme_model("dr"@, 2, seq![PhonemeFeature::Plosive, PhonemeFeature::Alveolar, PhonemeFeature::Voiced], "dɹ"@),
        phoneme_model("kr"@, 2, seq![PhonemeFeature::Plosive, PhonemeFeature::Velar, PhonemeFeature::Voiceless], "kɹ"@),
        phoneme_model("sh"@, 2, seq![PhonemeFeature::Fricative, PhonemeFeature::Palatal, PhonemeFeature::Voiceless], "ʃ"@),
        phoneme_model("tl"@, 1, seq![PhonemeFeature::Plosive, PhonemeFeature::Alveolar, PhonemeFeature::Voiceless], "tl"@),
    ]
}

pub open spec fn concilium_codas() -> Seq<PhonemeModel> {
    seq![
        phoneme_model("l"@, 2, seq![PhonemeFeature::Approximant, PhonemeFeature::Alveolar, PhonemeFeature::Voiced], "l"@),
        phoneme_model("n"@, 3, seq![PhonemeFeature::Nasal, PhonemeFeature::Alveolar, PhonemeFeature::Voiced], "n"@),
        phoneme_model("r"@, 3, seq![PhonemeFeature::Approximant, PhonemeFeature::Alveolar, PhonemeFeature::Voiced], "r"@),
        phoneme_model("k"@, 2, seq![PhonemeFeature::Plosive, PhonemeFeature::Velar, PhonemeFeature::Voiceless], "k"@),
        phoneme_model("s"@, 2, seq![PhonemeFeature::Fricative, PhonemeFeature::Alveolar, PhonemeFeature::Voiceless], "s"@),
        phoneme_model("m"@, 1, seq![PhonemeFeature::Nasal, PhonemeFeature::Labial, PhonemeFeature::Voiced], "m"@),
    ]
}

/// Chance of a coda after a CVC nucleus (0.85 in 24-bit fixed point).
pub open spec fn cvc_coda_chance() -> Probability {
    Probability::AtMost(14260634)
}

/// Chance of a coda after a CCVC nucleus (0.7 in 24-bit fixed point).
pub open spec fn ccvc_coda_chance() -> Probability {
    Probability::AtMost(11744051)
}

pub open spec fn concilium_templates() -> Seq<TemplateModel> {
    seq![
        TemplateModel {
            name: "CV"@,
            slots: seq![
                Slot { class: PhonemeClass::OnsetConsonant, optional_probability: None },
                Slot { class: PhonemeClass::Vowel, optional_probability: None },
            ],
            weight: 2,
        },
        TemplateModel {
            name: "CVC"@,
            slots: seq![
                Slot { class: PhonemeClass::OnsetConsonant, optional_probability: None },
                Slot { class: PhonemeClass::Vowel, optional_probability: None },
                Slot { class: PhonemeClass::CodaConsonant, optional_probability: Some(cvc_coda_chance()) },
            ],
            weight: 4,
        },
        TemplateModel {
            name: "CCVC"@,
            slots: seq![
                Slot { class: PhonemeClass::Cluster, optional_probability: None },
                Slot { class: PhonemeClass::Vowel, optional_probability: None },
                Slot { class: PhonemeClass::CodaConsonant, optional_probability: Some(ccvc_coda_chance()) },
            ],
            weight: 3,
        },
    ]
}

/// The phonology of Concilium.
pub open spec fn concilium_phonology() -> PhonologyModel {
    PhonologyModel {
        vowels: concilium_vowels(),
        onset_consonants: concilium_onsets(),
        clusters: concilium_clusters(),
        coda_consonants: concilium_codas(),
        templates: concilium_templates(),
        disallow_initial_vowel: true,
    }
}

/// The grammar of Concilium: subject-object-verb, plural suffix `-en`, past prefix `ka-`.
pub open spec fn concilium_grammar() -> GrammarModel {
    GrammarModel {
        word_order: WordOrder::SOV,
        rules: seq![
            RuleModel { feature: FeatureValue::Plural, prefix: None, suffix: Some(seq!["e"@, "n"@]) },
            RuleModel { feature: FeatureValue::Past, prefix: Some(seq!["k"@, "a"@]), suffix: None },
        ],
    }
}

/// The sound changes of Concilium, in the order they apply; their chances are 0.9,
/// 0.65, 0.4 and 0.55 in 24-bit fixed point.
pub open spec fn concilium_sound_changes() -> Seq<SoundChangeModel> {
    seq![
        SoundChangeModel {
            name: "aspirate velar plosives"@,
            from: "k"@,
            to: seq!["kh"@],
            probability: Probability::AtMost(15099494),
            environment: EnvironmentModel { left: MatcherModel::Any, right: MatcherModel::Any },
        },
        SoundChangeModel {
            name: "soften alveolar fricatives before vowels"@,
            from: "s"@,
            to: seq!["sh"@],
            probability: Probability::AtMost(10905190),
            environment: EnvironmentModel { left: MatcherModel::Any, right: MatcherModel::Vowel },
        },
        SoundChangeModel {
            name: "palatalize stops before front vowels"@,
            from: "t"@,
            to: seq!["ts"@],
            probability: Probability::AtMost(6710886),
            environment: EnvironmentModel {
                left: MatcherModel::Any,
                right: MatcherModel::HasFeature(PhonemeFeature::Front),
            },
        },
        SoundChangeModel {
            name: "brighten vowels between consonants"@,
            from: "a"@,
            to: seq!["ae"@],
            probability: Probability::AtMost(9227469),
            environment: EnvironmentModel { left: MatcherModel::Consonant, right: MatcherModel::Consonant },
        },
    ]
}

/// The Concilium blueprint.
pub open spec fn concilium_model() -> BlueprintModel {
    BlueprintModel {
        name: "Concilium"@,
        phonology: concilium_phonology(),
        grammar: concilium_grammar(),
        sound_changes: concilium_sound_changes(),
        mapper: registered(demo_glosses()),
    }
}

fn phoneme(symbol: &str, weight: u32, features: Vec<PhonemeFeature>, ipa: &str) -> (r: WeightedPhoneme)
    ensures
        r@ == phoneme_model(symbol@, weight, features@, ipa@),
{
    WeightedPhoneme::new(symbol, weight).with_features(features).with_ipa(ipa)
}

fn one(a: PhonemeFeature) -> (r: Vec<PhonemeFeature>)
    ensures
        r@ == seq![a],
{
    let mut r = Vec::new();
    r.push(a);
    assert(r@ =~= seq![a]);
    r
}

fn two(a: PhonemeFeature, b: PhonemeFeature) -> (r: Vec<PhonemeFeature>)
    ensures
        r@ == seq![a, b],
{
    let mut r = Vec::new();
    r.push(a);
    r.push(b);
    assert(r@ =~= seq![a, b]);
    r
}

fn three(a: PhonemeFeature, b: PhonemeFeature, c: PhonemeFeature) -> (r: Vec<PhonemeFeature>)
    ensures
        r@ == seq![a, b, c],
{
    let mut r = Vec::new();
    r.push(a);
    r.push(b);
    r.push(c);
    assert(r@ =~= seq![a, b, c]);
    r
}

fn vowels() -> (r: Vec<WeightedPhoneme>)
    ensures
        phoneme_models(r@) == concilium_vowels(),
{
    let mut r = Vec::new();
    r.push(phoneme("a", 5, two(PhonemeFeature::Low, PhonemeFeature::Back), "ɑ"));
    r.push(phoneme("e", 4, one(PhonemeFeature::Front), "e"));
    r.push(phoneme("i", 3, two(PhonemeFeature::High, PhonemeFeature::Front), "i"));
    r.push(phoneme("o", 3, one(PhonemeFeature::Back), "o"));
    r.push(phoneme("u", 2, two(PhonemeFeature::High, PhonemeFeature::Back), "u"));
    assert(phoneme_models(r@) =~= concilium_vowels());
    r
}

fn onsets() -> (r: Vec<WeightedPhoneme>)
    ensures
        phoneme_models(r@) == concilium_onsets(),
{
    let mut r = Vec::new();
    r.push(phoneme("l", 4, three(PhonemeFeature::Approximant, PhonemeFeature::Alveolar, PhonemeFeature::Voiced), "l"));
    r.push(phoneme("m", 4, three(PhonemeFeature::Nasal, PhonemeFeature::Labial, PhonemeFeature::Voiced), "m"));
    r.push(phoneme("n", 4, three(PhonemeFeature::Nasal, PhonemeFeature::Alveolar, PhonemeFeature::Voiced), "n"));
    r.push(phoneme("r", 4, three(PhonemeFeature::Approximant, PhonemeFeature::Alveolar, PhonemeFeature::Voiced), "r"));
    r.push(phoneme("k", 3, three(PhonemeFeature::Plosive, PhonemeFeature::Velar, PhonemeFeature::Voiceless), "k"));
    r.push(phoneme("t", 3, three(PhonemeFeature::Plosive, PhonemeFeature::Alveolar, PhonemeFeature::Voiceless), "t"));
    r.push(phoneme("g", 2, three(PhonemeFeature::Plosive, PhonemeFeature::Velar, PhonemeFeature::Voiced), "ɡ"));
    r.push(phoneme("d", 2, three(PhonemeFeature::Plosive, PhonemeFeature::Alveolar, PhonemeFeature::Voiced), "d"));
    r.push(phoneme("s", 3, three(PhonemeFeature::Fricative, PhonemeFeature::Alveolar, PhonemeFeature::Voiceless), "s"));
    r.push(phoneme("v", 2, three(PhonemeFeature::Fricative, PhonemeFeature::Labial, PhonemeFeature::Voiced), "v"));
    assert(phoneme_models(r@) =~= concilium_onsets());
    r
}

fn clusters() -> (r: Vec<WeightedPhoneme>)
    ensures
        phoneme_models(r@) == concilium_clusters(),
{
    let mut r = Vec::new();
    r.push(phoneme("dr", 2, three(PhonemeFeature::Plosive, PhonemeFeature::Alveolar, PhonemeFeature::Voiced), "dɹ"));
    r.push(phoneme("kr", 2, three(PhonemeFeature::Plosive, PhonemeFeature::Velar, PhonemeFeature::Voiceless), "kɹ"));
    r.push(phoneme("sh", 2, three(PhonemeFeature::Fricative, PhonemeFeature::Palatal, PhonemeFeature::Voiceless), "ʃ"));
    r.push(phoneme("tl", 1, three(PhonemeFeature::Plosive, PhonemeFeature::Alveolar, PhonemeFeature::Voiceless), "tl"));
    assert(phoneme_models(r@) =~= concilium_clusters());
    r
}

fn codas() -> (r: Vec<WeightedPhoneme>)
    ensures
        phoneme_models(r@) == concilium_codas(),
{
    let mut r = Vec::new();
    r.push(phoneme("l", 2, three(PhonemeFeature::Approximant, PhonemeFeature::Alveolar, PhonemeFeature::Voiced), "l"));
    r.push(phoneme("n", 3, three(PhonemeFeature::Nasal, PhonemeFeature::Alveolar, PhonemeFeature::Voiced), "n"));
    r.push(phoneme("r", 3, three(PhonemeFeature::Approximant, PhonemeFeature::Alveolar, PhonemeFeature::Voiced), "r"));
    r.push(phoneme("k", 2, three(PhonemeFeature::Plosive, PhonemeFeature::Velar, PhonemeFeature::Voiceless), "k"));
    r.push(phoneme("s", 2, three(PhonemeFeature::Fricative, PhonemeFeature::Alveolar, PhonemeFeature::Voiceless), "s"));
    r.push(phoneme("m", 1, three(PhonemeFeature::Nasal, PhonemeFeature::Labial, PhonemeFeature::Voiced), "m"));
    assert(phoneme_models(r@) =~= concilium_codas());
    r
}

fn templates() -> (r: Vec<SyllableTemplate>)
    ensures
        template_models(r@) == concilium_templates(),
{
    let mut cv = Vec::new();
    cv.push(Slot::required(PhonemeClass::OnsetConsonant));
    cv.push(Slot::required(PhonemeClass::Vowel));
    let mut cvc = Vec::new();
    cvc.push(Slot::required(PhonemeClass::OnsetConsonant));
    cvc.push(Slot::required(PhonemeClass::Vowel));
    cvc.push(Slot::optional(PhonemeClass::CodaConsonant, Probability::AtMost(14260634)));
    let mut ccvc = Vec::new();
    ccvc.push(Slot::required(PhonemeClass::Cluster));
    ccvc.push(Slot::required(PhonemeClass::Vowel));
    ccvc.push(Slot::optional(PhonemeClass::CodaConsonant, Probability::AtMost(11744051)));
    let mut r = Vec::new();
    r.push(SyllableTemplate::new("CV", cv, 2));
    r.push(SyllableTemplate::new("CVC", cvc, 4));
    r.push(SyllableTemplate::new("CCVC", ccvc, 3));
    assert(r@[0]@.slots =~= concilium_templates()[0].slots);
    assert(r@[1]@.slots =~= concilium_templates()[1].slots);
    assert(r@[2]@.slots =~= concilium_templates()[2].slots);
    assert(template_models(r@) =~= concilium_templates());
    r
}

fn affix(a: &str, b: &str) -> (r: Vec<String>)
    ensures
        crate::text::views(r@) == seq![a@, b@],
{
    let mut r = Vec::new();
    r.push(owned(a));
    r.push(owned(b));
    assert(crate::text::views(r@) =~= seq![a@, b@]);
    r
}

fn grammar() -> (r: Grammar)
    ensures
        r@ == concilium_grammar(),
{
    let mut rules = Vec::new();
    rules.push(ParadigmRule { feature: FeatureValue::Plural, prefix: None, suffix: Some(affix("e", "n")) });
    rules.push(ParadigmRule { feature: FeatureValue::Past, prefix: Some(affix("k", "a")), suffix: None });
    let morphology = MorphologyEngine { rules };
    assert(morphology@ =~= concilium_grammar().rules);
    Grammar::new(WordOrder::SOV, morphology)
}

fn sound_changes() -> (r: Vec<SoundChange>)
    ensures
        change_models(r@) == concilium_sound_changes(),
{
    let mut r = Vec::new();
    r.push(SoundChange::new("aspirate velar plosives", "k", vec!["kh"], Probability::AtMost(15099494), Environment::anywhere()));
    r.push(SoundChange::new(
        "soften alveolar fricatives before vowels",
        "s",
        vec!["sh"],
        Probability::AtMost(10905190),
        Environment::between(Matcher::Any, Matcher::Vowel),
    ));
    r.push(SoundChange::new(
        "palatalize stops before front vowels",
        "t",
        vec!["ts"],
        Probability::AtMost(6710886),
        Environment::between(Matcher::Any, Matcher::HasFeature(PhonemeFeature::Front)),
    ));
    r.push(SoundChange::new(
        "brighten vowels between consonants",
        "a",
        vec!["ae"],
        Probability::AtMost(9227469),
        Environment::between(Matcher::Consonant, Matcher::Consonant),
    ));
    assert(change_models(r@)[0].to =~= seq!["kh"@]);
    assert(change_models(r@)[1].to =~= seq!["sh"@]);
    assert(change_models(r@)[2].to =~= seq!["ts"@]);
    assert(change_models(r@)[3].to =~= seq!["ae"@]);
    assert(change_models(r@) =~= concilium_sound_changes());
    r
}

/// A mapper with a concept for each demo gloss, named and identified by the gloss, and
/// the gloss mapped to it.
fn demo_mapper() -> (r: SemanticMapper)
    ensures
        r@ == registered(demo_glosses()),
{
    let mut semantic_mapper = SemanticMapper::new();
    let glosses = DEMO_GLOSSES;
    assert(glosses@ =~= seq!["i", "you", "see", "tree", "river", "stone", "sky", "fire", "song", "king", "moon"]);
    assert(glosses@.map_values(|g: &str| g@) =~= demo_glosses());
    let mut i: usize = 0;
    assert(semantic_mapper@ == registered(demo_glosses().take(0)));
    while i < 11
        invariant
            0 <= i <= 11,
            glosses@.len() == 11,
            glosses@.map_values(|g: &str| g@) == demo_glosses(),
            semantic_mapper@ == registered(demo_glosses().take(i as int)),
        decreases 11 - i,
    {
        let gloss = glosses[i];
        assert(gloss@ == demo_glosses()[i as int]);
        let concept = Concept::new(gloss, gloss);
        let id = concept.id.clone();
        semantic_mapper.add_concept(concept);
        semantic_mapper.map_gloss(gloss, id);
        proof {
            assert(demo_glosses().take(i as int + 1).drop_last() =~= demo_glosses().take(i as int));
        }
        i = i + 1;
    }
    assert(demo_glosses().take(11) =~= demo_glosses());
    semantic_mapper
}

/// The Concilium blueprint: its phonology, grammar, sound changes and the demo vocabulary.
pub fn concilium_blueprint() -> (r: LanguageBlueprint)
    ensures
        r@ == concilium_model(),
        weights_fit(r@.phonology),
{
    proof {
        lemma_concilium_weights_fit();
    }
    let phonology = Phonology::new(
        vowels(),
        onsets(),
        clusters(),
        codas(),
        templates(),
        PhonotacticConstraints::new(true),
    );
    LanguageBlueprint::new("Concilium", phonology, grammar(), sound_changes(), demo_mapper())
}

/// The Concilium phonology's weights fit the sums that sampling computes, so languages
/// can be generated from the blueprint.
pub proof fn lemma_concilium_weights_fit()
    ensures
        weights_fit(concilium_phonology()),
{
    assert(template_weights(concilium_templates()) =~= seq![2u32, 4, 3]);
    assert(phoneme_weights(concilium_vowels()) =~= seq![5u32, 4, 3, 3, 2]);
    assert(phoneme_weights(concilium_onsets()) =~= seq![4u32, 4, 4, 4, 3, 3, 2, 2, 3, 2]);
    assert(phoneme_weights(concilium_clusters()) =~= seq![2u32, 2, 2, 1]);
    assert(phoneme_weights(concilium_codas()) =~= seq![2u32, 3, 3, 2, 2, 1]);
    reveal_with_fuel(weight_total, 11);
}

} // verus!
