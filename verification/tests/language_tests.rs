use std::path::PathBuf;

use concilium_language_engine::corpus::CorpusLoadReport;
use concilium_language_engine::evolution::GlossSyntaxNode;
use concilium_language_engine::glossary::{
    render_english_to_concilium, render_lexicon_markdown, render_sentences_markdown,
};
use concilium_language_engine::grammar::{
    FeatureValue, Grammar, MorphologyEngine, ParadigmRule, PhraseCategory, SyntaxNode, WordOrder,
};
use concilium_language_engine::lexicon::{Lexeme, LexiconGenerator, WordGenerationConfig};
use concilium_language_engine::mutation::{Environment, Matcher, SoundChange};
use concilium_language_engine::phonology::{
    PhonemeClass, Phonology, PhonotacticConstraints, Slot, SyllableTemplate, WeightedPhoneme,
};
use concilium_language_engine::presets::{
    concilium_blueprint, demo_generation_config, demo_rng, demo_seed, DEMO_GLOSSES,
};
use concilium_language_engine::rng::{Probability, Random};
use concilium_language_engine::semantics::{Concept, ConceptId, SemanticMapper};
use concilium_language_engine::{Language, LanguageEngine, WordForm};

fn simple_phonology() -> Phonology {
    Phonology::new(
        vec![
            WeightedPhoneme::new("a", 1),
            WeightedPhoneme::new("e", 1),
            WeightedPhoneme::new("i", 1),
        ],
        vec![
            WeightedPhoneme::new("t", 1),
            WeightedPhoneme::new("k", 1),
            WeightedPhoneme::new("m", 1),
        ],
        vec![WeightedPhoneme::new("tr", 1)],
        vec![WeightedPhoneme::new("k", 1), WeightedPhoneme::new("n", 1)],
        vec![SyllableTemplate::new(
            "CV",
            vec![
                Slot::required(PhonemeClass::OnsetConsonant),
                Slot::required(PhonemeClass::Vowel),
            ],
            1,
        )],
        PhonotacticConstraints::new(false),
    )
}

fn demo_morphology() -> MorphologyEngine {
    MorphologyEngine {
        rules: vec![
            ParadigmRule {
                feature: FeatureValue::Plural,
                prefix: None,
                suffix: Some(vec!["e".to_owned(), "n".to_owned()]),
            },
            ParadigmRule {
                feature: FeatureValue::Past,
                prefix: Some(vec!["k".to_owned(), "a".to_owned()]),
                suffix: None,
            },
        ],
    }
}

#[test]
fn generated_words_respect_initial_consonant_constraint() {
    let blueprint = concilium_blueprint();
    let generator = LexiconGenerator::new(&blueprint.phonology);
    let mut rng = Random::new(17);

    for _ in 0..64 {
        let word = generator.generate_word(demo_generation_config(), &mut rng);
        assert!(blueprint.phonology.allows(&word), "invalid word: {}", word.text());
    }
}

#[test]
fn sound_change_applies_only_in_matching_environment() {
    let phonology = simple_phonology();
    let change = SoundChange::new(
        "brighten a",
        "a",
        vec!["ae"],
        Probability::Always,
        Environment::between(Matcher::Consonant, Matcher::Consonant),
    );

    let changed = change.apply(
        &WordForm::new(["t", "a", "k"]),
        &phonology,
        &mut Random::new(9),
    );
    let unchanged = change.apply(&WordForm::new(["a", "k"]), &phonology, &mut Random::new(9));

    assert_eq!(changed.text(), "taek");
    assert_eq!(unchanged.text(), "ak");
}

#[test]
fn grammar_realizes_word_order_and_inflection() {
    let grammar = Grammar::new(WordOrder::SOV, demo_morphology());

    let node = SyntaxNode::branch(
        PhraseCategory::Sentence,
        vec![
            SyntaxNode::leaf(WordForm::new(["mi"])),
            SyntaxNode::leaf(WordForm::new(["tar"])),
            SyntaxNode::leaf(WordForm::new(["ven"])),
        ],
    );

    let rendered = grammar.render_node(&node, &[FeatureValue::Plural, FeatureValue::Past]);
    assert_eq!(rendered, "mi taren kaven");
}

#[test]
fn language_generation_preserves_lexicon_size_and_demo_sentence() {
    let engine = LanguageEngine;
    let blueprint = concilium_blueprint();
    let mut rng = Random::new(29);

    let language = engine.generate_language(&blueprint, WordGenerationConfig::new(1, 2), &mut rng);

    assert_eq!(language.name, "Concilium");
    assert_eq!(language.lexicon.len(), DEMO_GLOSSES.len());
    assert!(
        language
            .render_clause_from_glosses("i", "tree", "see", true, true)
            .is_some()
    );
    assert!(
        language
            .render_clause_from_glosses("i", "you", "see", false, false)
            .is_some()
    );
    assert!(language.inventory_snapshot().iter().any(|symbol| symbol == "kh"));

    let corpus = CorpusLoadReport {
        files: vec![PathBuf::from("data/sentences.md")],
        glosses: vec!["i".to_owned(), "see".to_owned(), "you".to_owned()],
        sentences: vec!["I see you.".to_owned()],
        api_sources: Vec::new(),
    };
    let glossary = render_english_to_concilium(&language, &corpus);
    assert!(glossary.contains("# English to Concilium: Words"));
    assert!(glossary.contains("["));
    assert!(glossary.contains("# English to Concilium: Sentences"));
}

#[test]
fn recursive_syntax_renders_nested_structures() {
    let engine = LanguageEngine;
    let mut blueprint = concilium_blueprint();
    for gloss in &["i", "you", "see", "tree", "big"] {
        if blueprint.semantic_mapper.resolve_gloss(gloss).is_empty() {
            let concept = Concept::new(*gloss, *gloss);
            let id = concept.id.clone();
            blueprint.semantic_mapper.add_concept(concept);
            blueprint.semantic_mapper.map_gloss(*gloss, id);
        }
    }

    let mut rng = Random::new(42);
    let language = engine.generate_language(&blueprint, WordGenerationConfig::new(1, 2), &mut rng);

    let tree = GlossSyntaxNode::branch(
        PhraseCategory::Sentence,
        vec![
            GlossSyntaxNode::branch(
                PhraseCategory::NounPhrase,
                vec![GlossSyntaxNode::leaf("big"), GlossSyntaxNode::leaf("tree")],
            ),
            GlossSyntaxNode::leaf("i"),
            GlossSyntaxNode::leaf("see"),
        ],
    );

    let rendered = language.render_tree_from_glosses(&tree).unwrap();

    let big = language.lexemes_for_gloss("big").into_iter().next().unwrap().form.text();
    let tree_word = language.lexemes_for_gloss("tree").into_iter().next().unwrap().form.text();
    let i = language.lexemes_for_gloss("i").into_iter().next().unwrap().form.text();
    let see = language.lexemes_for_gloss("see").into_iter().next().unwrap().form.text();

    assert_eq!(rendered, format!("{} {} {} {}", big, tree_word, i, see));
}

fn tiny_language(lexicon: Vec<Lexeme>, glosses: &[&str]) -> Language {
    let mut semantic_mapper = SemanticMapper::new();
    for gloss in glosses {
        let concept = Concept::new(*gloss, *gloss);
        let id = concept.id.clone();
        semantic_mapper.add_concept(concept);
        semantic_mapper.map_gloss(*gloss, id);
    }
    Language {
        name: "Concilium".to_owned(),
        phonology: Phonology::new(
            vec![WeightedPhoneme::new("i", 1)],
            vec![WeightedPhoneme::new("kh", 1)],
            vec![],
            vec![],
            vec![],
            PhonotacticConstraints::new(false),
        ),
        grammar: Grammar::new(WordOrder::SOV, MorphologyEngine::default()),
        lexicon,
        sound_changes: Vec::new(),
        semantic_mapper,
    }
}

#[test]
fn renders_markdown_glossary_with_pronunciation() {
    let mut semantic_mapper = SemanticMapper::new();
    let concept = Concept::new("you", "you");
    let id = concept.id.clone();
    semantic_mapper.add_concept(concept);
    semantic_mapper.map_gloss("you", id.clone());

    let language = Language {
        name: "Concilium".to_owned(),
        phonology: Phonology::new(
            vec![WeightedPhoneme::new("i", 1)],
            vec![WeightedPhoneme::new("kh", 1)],
            vec![],
            vec![],
            vec![],
            PhonotacticConstraints::new(false),
        ),
        grammar: Grammar::new(WordOrder::SOV, MorphologyEngine::default()),
        lexicon: vec![Lexeme::new(id, WordForm::new(["kh", "i"]))],
        sound_changes: Vec::new(),
        semantic_mapper,
    };
    let corpus = CorpusLoadReport {
        files: Vec::new(),
        glosses: vec!["you".to_owned()],
        sentences: vec!["You.".to_owned()],
        api_sources: Vec::new(),
    };

    let markdown = render_english_to_concilium(&language, &corpus);

    assert!(markdown.contains("# English to Concilium: Words"));
    assert!(markdown.contains("| you | khi | [kh-ee] |"));
    assert!(markdown.contains("# English to Concilium: Sentences"));
}

#[test]
fn word_table_is_ordered_by_concept() {
    let language = tiny_language(
        vec![
            Lexeme::new(ConceptId::new("you"), WordForm::new(["kh", "i"])),
            Lexeme::new(ConceptId::new("i"), WordForm::new(["i"])),
        ],
        &["you", "i"],
    );
    let table = render_lexicon_markdown(&language);
    assert_eq!(
        table,
        "# English to Concilium: Words\n\n| English | Concilium | Pronunciation |\n| --- | --- | --- |\n\
         | i | i | [ee] |\n| you | khi | [kh-ee] |\n"
    );
}

#[test]
fn glossary_without_sentences_is_the_word_table() {
    let language = tiny_language(vec![Lexeme::new(ConceptId::new("i"), WordForm::new(["i"]))], &["i"]);
    let corpus = CorpusLoadReport::default();
    assert_eq!(render_english_to_concilium(&language, &corpus), render_lexicon_markdown(&language));
}

#[test]
fn sentence_table_translates_and_pronounces() {
    let language = tiny_language(
        vec![
            Lexeme::new(ConceptId::new("you"), WordForm::new(["kh", "i"])),
            Lexeme::new(ConceptId::new("i"), WordForm::new(["i"])),
        ],
        &["you", "i"],
    );
    let corpus = CorpusLoadReport {
        files: Vec::new(),
        glosses: Vec::new(),
        sentences: vec!["You, I see.".to_owned()],
        api_sources: Vec::new(),
    };
    assert_eq!(
        render_sentences_markdown(&language, &corpus),
        "# English to Concilium: Sentences\n\n| English Sentence | Concilium Sentence | Pronunciation |\n| --- | --- | --- |\n\
         | You, I see. | khi, i see. | [kh-ee], [ee] [see]. |\n"
    );
}

#[test]
fn translation_keeps_unknown_words_and_punctuation() {
    let language = tiny_language(vec![Lexeme::new(ConceptId::new("you"), WordForm::new(["kh", "i"]))], &["you"]);
    assert_eq!(language.translate_text("Hello, you!"), "hello, khi!");
    assert_eq!(language.pronunciation_for_text("you"), "[kh-ee]");
}

#[test]
fn ipa_rendering_uses_phoneme_ipa() {
    let blueprint = concilium_blueprint();
    let word = WordForm::new(["g", "a", "sh", "x"]);
    assert_eq!(word.to_ipa_string(&blueprint.phonology), "\u{261}\u{251}\u{283}x");
}

#[test]
fn demo_presets_have_their_values() {
    assert_eq!(demo_seed(), 0x00C0_1C11_A55A);
    let config = demo_generation_config();
    assert_eq!((config.min_syllables, config.max_syllables), (1, 2));
    let mut a = demo_rng();
    let mut b = Random::new(0x00C0_1C11_A55A);
    assert_eq!(a.next_u64(), b.next_u64());
    let blueprint = concilium_blueprint();
    assert_eq!(blueprint.name, "Concilium");
    assert_eq!(blueprint.sound_changes.len(), 4);
    assert_eq!(blueprint.phonology.templates.len(), 3);
    for gloss in DEMO_GLOSSES {
        let ids = blueprint.semantic_mapper.resolve_gloss(gloss);
        assert_eq!(ids, vec![ConceptId::new(gloss)]);
    }
}

#[test]
fn generation_is_reproducible_from_the_seed() {
    let engine = LanguageEngine;
    let blueprint = concilium_blueprint();
    let first = engine.generate_language(&blueprint, demo_generation_config(), &mut demo_rng());
    let second = engine.generate_language(&blueprint, demo_generation_config(), &mut demo_rng());
    let texts = |l: &Language| l.lexicon.iter().map(|x| x.form.text()).collect::<Vec<_>>();
    assert_eq!(texts(&first), texts(&second));
    let mut distinct = texts(&first);
    distinct.sort();
    distinct.dedup();
    assert_eq!(distinct.len(), DEMO_GLOSSES.len());
    for (lexeme, gloss) in first.lexicon.iter().zip(DEMO_GLOSSES) {
        assert_eq!(lexeme.concept_id, ConceptId::new(gloss));
    }
}

#[test]
fn each_leaf_becomes_one_word() {
    let grammar = Grammar::new(WordOrder::VSO, demo_morphology());
    let node = SyntaxNode::branch(
        PhraseCategory::Sentence,
        vec![
            SyntaxNode::branch(
                PhraseCategory::NounPhrase,
                vec![SyntaxNode::leaf(WordForm::new(["mi"])), SyntaxNode::leaf(WordForm::new(["lo"]))],
            ),
            SyntaxNode::leaf(WordForm::new(["tar"])),
            SyntaxNode::leaf(WordForm::new(["ven"])),
        ],
    );
    let words = grammar.realize_node(&node, &[FeatureValue::Past, FeatureValue::Plural]);
    assert_eq!(words.len(), 4);
    let texts: Vec<String> = words.iter().map(|w| w.text()).collect();
    assert_eq!(texts, vec!["kaven", "mi", "lo", "taren"]);
}

#[test]
fn inflection_without_rules_keeps_the_word() {
    let engine = MorphologyEngine::default();
    let word = WordForm::new(["ta", "r"]);
    assert_eq!(engine.apply(&word, &[FeatureValue::Plural]).text(), "tar");
    let inflected = demo_morphology().apply(&word, &[FeatureValue::Plural, FeatureValue::Past]);
    assert_eq!(inflected.text(), "kataren");
}

#[test]
fn never_firing_change_leaves_word_and_generator() {
    let phonology = simple_phonology();
    let change = SoundChange::new("never", "a", vec!["e"], Probability::Never, Environment::anywhere());
    let mut rng = Random::new(5);
    let word = WordForm::new(["t", "a"]);
    let out = change.apply(&word, &phonology, &mut rng);
    assert_eq!(out, word);
    assert_eq!(rng.next_u64(), Random::new(5).next_u64());
}

#[test]
fn change_sequence_applies_in_order() {
    let phonology = simple_phonology();
    let first = SoundChange::new("a to e", "a", vec!["e"], Probability::Always, Environment::anywhere());
    let second = SoundChange::new("e to i", "e", vec!["i"], Probability::Always, Environment::anywhere());
    let word = WordForm::new(["t", "a"]);
    let both = SoundChange::apply_sequence(&[first.clone(), second.clone()], &word, &phonology, &mut Random::new(3));
    let step = first.apply(&word, &phonology, &mut Random::new(3));
    let step = second.apply(&step, &phonology, &mut Random::new(3));
    assert_eq!(both.text(), "ti");
    assert_eq!(step.text(), "ti");
    let none = SoundChange::apply_sequence(&[], &word, &phonology, &mut Random::new(3));
    assert_eq!(none, word);
}

#[test]
fn word_form_builders() {
    let word = WordForm::new(vec!["t", "a"]);
    assert_eq!(word.with_prefix(["k"]).text(), "kta");
    assert_eq!(word.with_suffix(vec!["e".to_owned()]).text(), "tae");
    assert_eq!(word.pronunciation(), "t-ah");
    assert_eq!(WordForm::new(["ae", "o", "u", "e", "x"]).pronunciation(), "eye-oh-oo-eh-x");
    assert_eq!(word.phonemes(), &["t".to_owned(), "a".to_owned()]);
}

#[test]
fn mapper_resolves_glosses_in_mapping_order() {
    let mut mapper = SemanticMapper::new();
    mapper.add_concept(Concept::new("river", "river"));
    mapper.add_concept(Concept::new("stream", "stream"));
    mapper.map_gloss("river", ConceptId::new("river"));
    mapper.map_gloss("river", ConceptId::new("stream"));
    assert_eq!(
        mapper.resolve_gloss("river"),
        vec![ConceptId::new("river"), ConceptId::new("stream")]
    );
    assert!(mapper.resolve_gloss("sea").is_empty());
    assert_eq!(mapper.get_concept(&ConceptId::new("stream")).unwrap().canonical_name, "stream");
    assert!(mapper.get_concept(&ConceptId::new("sea")).is_none());
}

#[test]
fn certain_change_ignores_the_generator() {
    let phonology = simple_phonology();
    let change = SoundChange::new("k to kh", "k", vec!["kh"], Probability::Always, Environment::anywhere());
    let word = WordForm::new(["k", "a", "k"]);
    let mut first = Random::new(1);
    let mut second = Random::new(2);
    let a = change.apply(&word, &phonology, &mut first);
    let b = change.apply(&word, &phonology, &mut second);
    assert_eq!(a, b);
    assert_eq!(a.text(), "khakh");
    assert_eq!(first.next_u64(), Random::new(1).next_u64());
}

#[test]
fn missing_glosses_get_concepts() {
    let mut mapper = SemanticMapper::new();
    mapper.add_concept(Concept::new("sun", "sun"));
    mapper.map_gloss("star", ConceptId::new("sun"));
    mapper.add_missing_glosses(&vec!["star".to_owned(), "moon".to_owned(), "moon".to_owned()]);
    assert_eq!(mapper.resolve_gloss("star"), vec![ConceptId::new("sun")]);
    assert_eq!(mapper.resolve_gloss("moon"), vec![ConceptId::new("moon")]);
    assert_eq!(mapper.get_concept(&ConceptId::new("moon")).unwrap().canonical_name, "moon");
    assert!(SemanticMapper::new().resolve_gloss("x").is_empty());
}

#[test]
fn word_generation_without_templates_gives_up() {
    let phonology = Phonology::new(
        vec![WeightedPhoneme::new("a", 1)],
        vec![WeightedPhoneme::new("t", 1)],
        vec![],
        vec![],
        vec![],
        PhonotacticConstraints::new(false),
    );
    let generator = LexiconGenerator::new(&phonology);
    assert!(generator.try_generate_word(WordGenerationConfig::new(1, 1), &mut Random::new(3)).is_none());
    assert!(generator
        .try_generate_lexicon(&[ConceptId::new("sun")], WordGenerationConfig::new(1, 1), &mut Random::new(3))
        .is_none());
    let mut blueprint = concilium_blueprint();
    blueprint.phonology = phonology;
    assert!(LanguageEngine
        .try_generate_language(&blueprint, WordGenerationConfig::new(1, 1), &mut Random::new(3))
        .is_none());
}

#[test]
fn checked_generation_matches_generation() {
    let blueprint = concilium_blueprint();
    let generator = LexiconGenerator::new(&blueprint.phonology);
    let mut a = Random::new(11);
    let mut b = Random::new(11);
    let word = generator.try_generate_word(demo_generation_config(), &mut a).expect("a word");
    assert_eq!(word, generator.generate_word(demo_generation_config(), &mut b));
    let checked = LanguageEngine
        .try_generate_language(&blueprint, demo_generation_config(), &mut Random::new(29))
        .expect("the demo blueprint generates");
    let plain = LanguageEngine.generate_language(&blueprint, demo_generation_config(), &mut Random::new(29));
    let texts = |l: &Language| l.lexicon.iter().map(|x| x.form.text()).collect::<Vec<_>>();
    assert_eq!(texts(&checked), texts(&plain));
}

#[test]
fn clause_is_the_three_leaf_sentence() {
    let language = LanguageEngine.generate_language(&concilium_blueprint(), demo_generation_config(), &mut demo_rng());
    let tree = GlossSyntaxNode::branch(
        PhraseCategory::Sentence,
        vec![GlossSyntaxNode::leaf("i"), GlossSyntaxNode::leaf("tree"), GlossSyntaxNode::leaf("see")],
    );
    assert_eq!(
        language.render_clause_from_glosses("i", "tree", "see", true, true),
        language.render_tree_from_glosses_with_features(&tree, &[FeatureValue::Plural, FeatureValue::Past])
    );
    assert_eq!(language.render_clause_from_glosses("i", "unknown", "see", false, false), None);
}

#[test]
fn ipa_and_paragraph_renderings() {
    let language = tiny_language(vec![Lexeme::new(ConceptId::new("you"), WordForm::new(["kh", "i"]))], &["you"]);
    assert_eq!(language.ipa_for_text("You, friend!"), "khi, friend!");
    let table = concilium_language_engine::glossary::render_paragraphs_markdown(
        &language,
        &vec!["You.".to_owned()],
    );
    assert_eq!(
        table,
        "# English to Concilium: Paragraphs\n\n| English Paragraph | Concilium Paragraph | Pronunciation |\n| --- | --- | --- |\n\
         | You. | khi. | [kh-ee]. |\n"
    );
}
