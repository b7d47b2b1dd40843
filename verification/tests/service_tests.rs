use concilium_language_engine::public_api::{
    assemble_public_corpus, english_passages, join_errors, looks_like_english_sentence,
    paragraph_request_count, passage_outcome, plain_words, sentence_target, word_request_count,
    PassageService, QuoteCollection,
};
use concilium_language_engine::rng::{Probability, Random};
use concilium_language_engine::text::decimal_string;
use concilium_language_engine::voice::{VoiceConfig, VoiceEngine};

fn strings(items: &[&str]) -> Vec<String> {
    items.iter().map(|s| s.to_string()).collect()
}

#[test]
fn random_draws_follow_xorshift_star() {
    let mut rng = Random::new(1);
    assert_eq!(rng.next_u64(), 5180492295206395165);
    assert_eq!(rng.next_u64(), 12380297144915551517);
    let mut zero = Random::new(0);
    assert_eq!(zero.next_u64(), 973819730272012410);
}

#[test]
fn coins_and_ranges() {
    let mut rng = Random::new(7);
    assert!(!rng.coin(Probability::Never));
    assert!(rng.coin(Probability::Always));
    assert!(rng.coin(Probability::AtMost(1 << 24)));
    let mut copy = rng.clone();
    assert_eq!(rng.next_u64(), copy.next_u64());
    assert_eq!(rng.range_usize(4..4), 4);
    for _ in 0..32 {
        let v = rng.range_usize(3..9);
        assert!((3..9).contains(&v));
    }
    assert_eq!(rng.weighted_index(&[0, 0]), None);
    assert_eq!(rng.weighted_index(&[0, 5, 0]), Some(1));
}

#[test]
fn fraction_bits_are_the_high_bits() {
    let mut a = Random::new(1);
    let mut b = Random::new(1);
    assert_eq!(a.next_fraction_bits() as u64, b.next_u64() >> 40);
}

#[test]
fn decimal_numerals() {
    assert_eq!(decimal_string(0), "0");
    assert_eq!(decimal_string(7), "7");
    assert_eq!(decimal_string(1500), "1500");
    assert_eq!(decimal_string(usize::MAX), usize::MAX.to_string());
}

#[test]
fn voice_settings_default_and_validate() {
    let config = VoiceConfig::from_settings(None, None, None, None, None);
    assert_eq!(config.voice, "en-us");
    assert_eq!((config.speed, config.pitch, config.gain, config.word_gap), (175, 50, 100, 0));

    let engine = VoiceEngine::new();
    let request = engine.prepare("kʰi", config.clone()).expect("defaults are valid");
    assert_eq!(request.phonemes, "[[kʰi]]");
    assert_eq!(request.config.speed, 175);

    let high_pitch = VoiceConfig::from_settings(Some("fr".to_owned()), Some(120), Some(100), Some(250), Some(3));
    assert_eq!(
        engine.prepare("a", high_pitch).unwrap_err(),
        "CONCILIUM_VOICE_PITCH must be 0-99"
    );
    let loud = VoiceConfig::from_settings(None, None, Some(99), Some(201), None);
    assert_eq!(engine.prepare("a", loud).unwrap_err(), "CONCILIUM_VOICE_GAIN must be 0-200");
}

#[test]
fn english_sentences_are_recognised() {
    assert!(looks_like_english_sentence("I see you, (maybe) \"tomorrow\"!"));
    assert!(!looks_like_english_sentence("Room 101."));
    assert!(!looks_like_english_sentence("café"));
    assert!(!looks_like_english_sentence("... !"));
    assert!(!looks_like_english_sentence(""));
}

#[test]
fn request_sizes_are_clamped() {
    assert_eq!(sentence_target(0), 10);
    assert_eq!(sentence_target(2500), 100);
    assert_eq!(sentence_target(1_000_000), 400);
    assert_eq!(word_request_count(0), 1);
    assert_eq!(word_request_count(2000), 1500);
    assert_eq!(word_request_count(42), 42);
    assert_eq!(paragraph_request_count(0), 1);
    assert_eq!(paragraph_request_count(400), 50);
}

#[test]
fn word_and_passage_filters() {
    assert_eq!(plain_words(strings(&["tree", "x-ray", "Moon", "42"])), strings(&["tree", "Moon"]));
    assert_eq!(
        english_passages(strings(&["One.", "Two 2.", "Three.", "Four."]), 2),
        strings(&["One.", "Three."])
    );
}

#[test]
fn quotes_are_gathered_in_batches() {
    let mut quotes = QuoteCollection::new(60);
    assert_eq!(quotes.next_batch_size(), Some(50));
    quotes.add_batch(strings(&["A good day.", "", "Price: 5$"]));
    assert_eq!(quotes.next_batch_size(), Some(50));
    quotes.add_batch(strings(&["Stay calm."]));
    assert_eq!(quotes.next_batch_size(), Some(50));
    quotes.add_batch(strings(&["123"]));
    assert_eq!(quotes.next_batch_size(), None);
    assert_eq!(quotes.finish(), Ok(strings(&["A good day.", "Stay calm."])));

    let mut small = QuoteCollection::new(2);
    assert_eq!(small.next_batch_size(), Some(2));
    small.add_batch(strings(&["One.", "Two.", "Three."]));
    assert_eq!(small.next_batch_size(), None);
    assert_eq!(small.finish(), Ok(strings(&["One.", "Two."])));

    assert_eq!(
        QuoteCollection::new(5).finish(),
        Err("DummyJSON returned no passages".to_owned())
    );
}

#[test]
fn passage_outcomes_credit_the_service() {
    let ok = passage_outcome(PassageService::DummyJson, 12, Ok(strings(&["Hi there."])));
    assert_eq!(
        ok,
        Ok((strings(&["Hi there."]), "DummyJSON random quotes toward 12 passages".to_owned()))
    );
    let bacon = passage_outcome(PassageService::BaconIpsum, 3, Ok(strings(&["Bacon."])));
    assert_eq!(bacon.unwrap().1, "Bacon Ipsum batched paragraphs toward 3 passages");
    assert_eq!(
        passage_outcome(PassageService::BaconIpsum, 3, Ok(Vec::new())),
        Err("Bacon Ipsum returned no passages".to_owned())
    );
    assert_eq!(
        passage_outcome(PassageService::DummyJson, 3, Err("down".to_owned())),
        Err("down".to_owned())
    );
    assert_eq!(join_errors(&strings(&["a", "b", "c"])), "a | b | c");
    assert_eq!(join_errors(&Vec::new()), "");
}

#[test]
fn public_corpus_is_assembled_from_answers() {
    let report = assemble_public_corpus(
        120,
        Ok(strings(&["tree"])),
        Ok((strings(&["I see."]), "DummyJSON random quotes toward 10 passages".to_owned())),
    )
    .expect("both services answered");
    assert!(report.files.is_empty());
    assert_eq!(report.glosses, strings(&["tree"]));
    assert_eq!(report.sentences, strings(&["I see."]));
    assert_eq!(
        report.api_sources,
        strings(&["Random Word API generated 120 words", "DummyJSON random quotes toward 10 passages"])
    );

    let words_only = assemble_public_corpus(5, Ok(strings(&["moon"])), Err("no quotes".to_owned()))
        .expect("words came back");
    assert_eq!(words_only.api_sources, strings(&["Random Word API generated 5 words"]));

    assert_eq!(
        assemble_public_corpus(5, Err("words down".to_owned()), Err("quotes down".to_owned())),
        Err("words down | quotes down".to_owned())
    );
    assert_eq!(
        assemble_public_corpus(5, Ok(Vec::new()), Err("quotes down".to_owned())),
        Err("quotes down".to_owned())
    );
}

#[test]
fn draws_are_never_zero() {
    for seed in [0u64, 1, 2, 0x9E37_79B9_7F4A_7C15, u64::MAX] {
        let mut rng = Random::new(seed);
        for _ in 0..1000 {
            assert_ne!(rng.next_u64(), 0);
        }
    }
    let mut zero = Random::new(0);
    let mut golden = Random::new(0x9E37_79B9_7F4A_7C15);
    for _ in 0..16 {
        assert_eq!(zero.next_u64(), golden.next_u64());
    }
}

#[test]
fn passage_services_are_tried_in_order() {
    let first = PassageService::first();
    assert_eq!(first, PassageService::DummyJson);
    assert_eq!(first.next_after_failure(), Some(PassageService::BaconIpsum));
    assert_eq!(PassageService::BaconIpsum.next_after_failure(), None);
}
