pub mod rng;
pub mod text;
pub mod form;
pub mod phonology;
pub mod mutation;
pub mod semantics;
pub mod lexicon;
pub mod grammar;
pub mod evolution;
pub mod corpus;
pub mod glossary;
pub mod presets;
pub mod voice;
pub mod public_api;

pub use evolution::{Language, LanguageBlueprint, LanguageEngine};
pub use form::WordForm;
pub use grammar::{
    FeatureValue, Grammar, MorphologyEngine, ParadigmRule, PhraseCategory, SyntaxNode, WordOrder,
};
pub use lexicon::{Lexeme, LexiconGenerator, WordGenerationConfig};
pub use mutation::{Environment, Matcher, SoundChange};
pub use phonology::{
    PhonemeClass, PhonemeFeature, Phonology, PhonotacticConstraints, Slot, SyllableTemplate,
    WeightedPhoneme,
};
pub use rng::{Probability, Random};
pub use semantics::{Concept, ConceptId, SemanticMapper};
