use vstd::prelude::*;

use crate::form::WordForm;
use crate::rng::{weight_total, weighted_outcome, Probability, Random};
use crate::text::{chars_of, str_eq, IntoText};

verus! {

/// Articulatory features of a phoneme.
#[derive(Clone, Copy, Debug, PartialEq, Eq, Hash, Structural)]
pub enum PhonemeFeature {
    // Manner
    Plosive,
    Fricative,
    Nasal,
    Approximant,
    // Place
    Labial,
    Alveolar,
    Palatal,
    Velar,
    Glottal,
    // Voicing
    Voiced,
    Voiceless,
    // Vowels
    Front,
    Back,
    High,
    Low,
}

/// A list of features.
#[derive(Debug, Default, PartialEq, Eq)]
pub struct FeatureSet {
    pub features: Vec<PhonemeFeature>,
}

impl View for FeatureSet {
    type V = Seq<PhonemeFeature>;

    open spec fn view(&self) -> Seq<PhonemeFeature> {
        self.features@
    }
}

/// Copies a list of features.
pub fn clone_features(v: &Vec<PhonemeFeature>) -> (r: Vec<PhonemeFeature>)
    ensures
        r@ == v@,
{
    let mut out: Vec<PhonemeFeature> = Vec::new();
    let mut i: usize = 0;
    while i < v.len()
        invariant
            0 <= i <= v@.len(),
            out@ =~= v@.take(i as int),
        decreases v@.len() - i,
    {
        out.push(v[i]);
        i = i + 1;
    }
    assert(out@ =~= v@);
    out
}

impl Clone for FeatureSet {
    fn clone(&self) -> (r: Self)
        ensures
            r@ == self@,
    {
        FeatureSet { features: clone_features(&self.features) }
    }
}

impl FeatureSet {
    pub fn new(features: Vec<PhonemeFeature>) -> (r: Self)
        ensures
            r@ == features@,
    {
        FeatureSet { features }
    }

    /// Whether `feature` is in the set.
    pub fn has(&self, feature: PhonemeFeature) -> (r: bool)
        ensures
            r == self@.contains(feature),
    {
        let mut i: usize = 0;
        while i < self.features.len()
            invariant
                0 <= i <= self@.len(),
                forall|j: int| 0 <= j < i ==> self@[j] != feature,
            decreases self@.len() - i,
        {
            if self.features[i] == feature {
                return true;
            }
            i = i + 1;
        }
        false
    }
}

/// The abstract content of a phoneme.
pub struct PhonemeModel {
    pub symbol: Seq<char>,
    pub weight: u32,
    pub features: Seq<PhonemeFeature>,
    pub ipa: Option<Seq<char>>,
}

/// A phoneme symbol with its sampling weight, features and IPA rendering.
#[derive(Debug, PartialEq, Eq)]
pub struct WeightedPhoneme {
    pub symbol: String,
    pub weight: u32,
    pub features: FeatureSet,
    pub ipa: Option<String>,
}

impl View for WeightedPhoneme {
    type V = PhonemeModel;

    open spec fn view(&self) -> PhonemeModel {
        PhonemeModel {
            symbol: self.symbol@,
            weight: self.weight,
            features: self.features@,
            ipa: match self.ipa {
                Some(s) => Some(s@),
                None => None,
            },
        }
    }
}

impl Clone for WeightedPhoneme {
    fn clone(&self) -> (r: Self)
        ensures
            r@ == self@,
    {
        let ipa = match &self.ipa {
            Some(s) => Some(s.clone()),
            None => None,
        };
        WeightedPhoneme {
            symbol: self.symbol.clone(),
            weight: self.weight,
            features: self.features.clone(),
            ipa,
        }
    }
}

impl WeightedPhoneme {
    /// A phoneme with no features and no IPA rendering.
    pub fn new<S: IntoText>(symbol: S, weight: u32) -> (r: Self)
        ensures
            r@ == (PhonemeModel {
                symbol: symbol.text_view(),
                weight,
                features: Seq::empty(),
                ipa: None,
            }),
    {
        WeightedPhoneme {
            symbol: symbol.into_text(),
            weight,
            features: FeatureSet { features: Vec::new() },
            ipa: None,
        }
    }

    /// This phoneme with its features replaced.
    pub fn with_features(self, features: Vec<PhonemeFeature>) -> (r: Self)
        ensures
            r@ == (PhonemeModel { features: features@, ..self@ }),
    {
        WeightedPhoneme { features: FeatureSet::new(features), ..self }
    }

    /// This phoneme with its IPA rendering set.
    pub fn with_ipa<S: IntoText>(self, ipa: S) -> (r: Self)
        ensures
            r@ == (PhonemeModel { ipa: Some(ipa.text_view()), ..self@ }),
    {
        WeightedPhoneme { ipa: Some(ipa.into_text()), ..self }
    }
}

/// The inventory a syllable slot draws from.
#[derive(Clone, Copy, Debug, PartialEq, Eq, Structural)]
pub enum PhonemeClass {
    OnsetConsonant,
    Cluster,
    Vowel,
    CodaConsonant,
}

/// A position in a syllable template, optionally filled only with some chance.
#[derive(Clone, Copy, Debug, PartialEq, Eq)]
pub struct Slot {
    pub class: PhonemeClass,
    pub optional_probability: Option<Probability>,
}

impl Slot {
    /// A slot that is always filled.
    pub fn required(class: PhonemeClass) -> (r: Self)
        ensures
            r == (Slot { class, optional_probability: None }),
    {
        Slot { class, optional_probability: None }
    }

    /// A slot filled with chance `probability`.
    pub fn optional(class: PhonemeClass, probability: Probability) -> (r: Self)
        ensures
            r == (Slot { class, optional_probability: Some(probability) }),
    {
        Slot { class, optional_probability: Some(probability) }
    }
}

/// The abstract content of a syllable template.
pub struct TemplateModel {
    pub name: Seq<char>,
    pub slots: Seq<Slot>,
    pub weight: u32,
}

/// A named syllable shape with its sampling weight.
#[derive(Debug, PartialEq, Eq)]
pub struct SyllableTemplate {
    pub name: String,
    pub slots: Vec<Slot>,
    pub weight: u32,
}

impl View for SyllableTemplate {
    type V = TemplateModel;

    open spec fn view(&self) -> TemplateModel {
        TemplateModel { name: self.name@, slots: self.slots@, weight: self.weight }
    }
}

/// Copies a list of slots.
pub fn clone_slots(v: &Vec<Slot>) -> (r: Vec<Slot>)
    ensures
        r@ == v@,
{
    let mut out: Vec<Slot> = Vec::new();
    let mut i: usize = 0;
    while i < v.len()
        invariant
            0 <= i <= v@.len(),
            out@ =~= v@.take(i as int),
        decreases v@.len() - i,
    {
        out.push(v[i]);
        i = i + 1;
    }
    assert(out@ =~= v@);
    out
}

impl Clone for SyllableTemplate {
    fn clone(&self) -> (r: Self)
        ensures
            r@ == self@,
    {
        SyllableTemplate {
            name: self.name.clone(),
            slots: clone_slots(&self.slots),
            weight: self.weight,
        }
    }
}

impl SyllableTemplate {
    pub fn new<S: IntoText>(name: S, slots: Vec<Slot>, weight: u32) -> (r: Self)
        ensures
            r@ == (TemplateModel { name: name.text_view(), slots: slots@, weight }),
    {
        SyllableTemplate { name: name.into_text(), slots, weight }
    }
}

/// Restrictions on where phonemes may stand in a word.
#[derive(Debug, PartialEq, Eq)]
pub struct PhonotacticConstraints {
    pub disallow_initial_vowel: bool,
}

impl Clone for PhonotacticConstraints {
    fn clone(&self) -> (r: Self)
        ensures
            r == *self,
    {
        PhonotacticConstraints { disallow_initial_vowel: self.disallow_initial_vowel }
    }
}

impl PhonotacticConstraints {
    pub fn new(disallow_initial_vowel: bool) -> (r: Self)
        ensures
            r.disallow_initial_vowel == disallow_initial_vowel,
    {
        PhonotacticConstraints { disallow_initial_vowel }
    }
}

/// The abstract content of a phonology.
pub struct PhonologyModel {
    pub vowels: Seq<PhonemeModel>,
    pub onset_consonants: Seq<PhonemeModel>,
    pub clusters: Seq<PhonemeModel>,
    pub coda_consonants: Seq<PhonemeModel>,
    pub templates: Seq<TemplateModel>,
    pub disallow_initial_vowel: bool,
}

/// Phoneme inventories, syllable templates and phonotactic constraints of a language.
#[derive(Debug, PartialEq, Eq)]
pub struct Phonology {
    pub vowels: Vec<WeightedPhoneme>,
    pub onset_consonants: Vec<WeightedPhoneme>,
    pub clusters: Vec<WeightedPhoneme>,
    pub coda_consonants: Vec<WeightedPhoneme>,
    pub templates: Vec<SyllableTemplate>,
    pub constraints: PhonotacticConstraints,
}

pub open spec fn phoneme_models(v: Seq<WeightedPhoneme>) -> Seq<PhonemeModel> {
    v.map_values(|p: WeightedPhoneme| p@)
}

pub open spec fn template_models(v: Seq<SyllableTemplate>) -> Seq<TemplateModel> {
    v.map_values(|t: SyllableTemplate| t@)
}

impl View for Phonology {
    type V = PhonologyModel;

    open spec fn view(&self) -> PhonologyModel {
        PhonologyModel {
            vowels: phoneme_models(self.vowels@),
            onset_consonants: phoneme_models(self.onset_consonants@),
            clusters: phoneme_models(self.clusters@),
            coda_consonants: phoneme_models(self.coda_consonants@),
            templates: template_models(self.templates@),
            disallow_initial_vowel: self.constraints.disallow_initial_vowel,
        }
    }
}

/// Copies a list of phonemes.
pub fn clone_phonemes(v: &Vec<WeightedPhoneme>) -> (r: Vec<WeightedPhoneme>)
    ensures
        phoneme_models(r@) == phoneme_models(v@),
{
    let mut out: Vec<WeightedPhoneme> = Vec::new();
    let mut i: usize = 0;
    while i < v.len()
        invariant
            0 <= i <= v@.len(),
            phoneme_models(out@) =~= phoneme_models(v@).take(i as int),
        decreases v@.len() - i,
    {
        let p = v[i].clone();
        proof {
            assert(phoneme_models(out@.push(p)) =~= phoneme_models(out@).push(p@));
        }
        out.push(p);
        i = i + 1;
    }
    out
}

/// Copies a list of templates.
pub fn clone_templates(v: &Vec<SyllableTemplate>) -> (r: Vec<SyllableTemplate>)
    ensures
        template_models(r@) == template_models(v@),
{
    let mut out: Vec<SyllableTemplate> = Vec::new();
    let mut i: usize = 0;
    while i < v.len()
        invariant
            0 <= i <= v@.len(),
            template_models(out@) =~= template_models(v@).take(i as int),
        decreases v@.len() - i,
    {
        let t = v[i].clone();
        proof {
            assert(template_models(out@.push(t)) =~= template_models(out@).push(t@));
        }
        out.push(t);
        i = i + 1;
    }
    out
}

impl Clone for Phonology {
    fn clone(&self) -> (r: Self)
        ensures
            r@ == self@,
    {
        Phonology {
            vowels: clone_phonemes(&self.vowels),
            onset_consonants: clone_phonemes(&self.onset_consonants),
            clusters: clone_phonemes(&self.clusters),
            coda_consonants: clone_phonemes(&self.coda_consonants),
            templates: clone_templates(&self.templates),
            constraints: self.constraints.clone(),
        }
    }
}

/// The inventory a slot class draws from.
pub open spec fn inventory_of(ph: PhonologyModel, class: PhonemeClass) -> Seq<PhonemeModel> {
    match class {
        PhonemeClass::OnsetConsonant => ph.onset_consonants,
        PhonemeClass::Cluster => ph.clusters,
        PhonemeClass::Vowel => ph.vowels,
        PhonemeClass::CodaConsonant => ph.coda_consonants,
    }
}

pub open spec fn phoneme_weights(v: Seq<PhonemeModel>) -> Seq<u32> {
    v.map_values(|p: PhonemeModel| p.weight)
}

pub open spec fn template_weights(v: Seq<TemplateModel>) -> Seq<u32> {
    v.map_values(|t: TemplateModel| t.weight)
}

/// Sampling weights fit the 32-bit sums that sampling computes.
pub open spec fn weights_fit(ph: PhonologyModel) -> bool {
    &&& weight_total(template_weights(ph.templates)) <= u32::MAX
    &&& weight_total(phoneme_weights(ph.vowels)) <= u32::MAX
    &&& weight_total(phoneme_weights(ph.onset_consonants)) <= u32::MAX
    &&& weight_total(phoneme_weights(ph.clusters)) <= u32::MAX
    &&& weight_total(phoneme_weights(ph.coda_consonants)) <= u32::MAX
}

/// Template drawn from state `s`, and the state after the draw.
pub open spec fn template_outcome(ph: PhonologyModel, s: u64) -> (Option<TemplateModel>, u64) {
    let (i, s2) = weighted_outcome(s, template_weights(ph.templates));
    match i {
        Some(k) => (Some(ph.templates[k]), s2),
        None => (None, s2),
    }
}

/// Symbol drawn for `class` from state `s`, and the state after the draw.
pub open spec fn symbol_outcome(ph: PhonologyModel, class: PhonemeClass, s: u64) -> (
    Option<Seq<char>>,
    u64,
) {
    let inv = inventory_of(ph, class);
    let (i, s2) = weighted_outcome(s, phoneme_weights(inv));
    match i {
        Some(k) => (Some(inv[k].symbol), s2),
        None => (None, s2),
    }
}

/// A symbol is a vowel when it is a listed vowel or contains one of `a e i o u y`.
pub open spec fn is_vowel(ph: PhonologyModel, symbol: Seq<char>) -> bool {
    ||| exists|i: int| 0 <= i < ph.vowels.len() && #[trigger] ph.vowels[i].symbol == symbol
    ||| exists|j: int| 0 <= j < symbol.len() && is_vowel_letter(#[trigger] symbol[j])
}

pub open spec fn is_vowel_letter(c: char) -> bool {
    c == 'a' || c == 'e' || c == 'i' || c == 'o' || c == 'u' || c == 'y'
}

/// The phonotactic constraints admit `form`.
pub open spec fn admits(ph: PhonologyModel, form: Seq<Seq<char>>) -> bool {
    !ph.disallow_initial_vowel || (form.len() > 0 && !is_vowel(ph, form[0]))
}

/// All phonemes, in search order: vowels, onsets, clusters, codas.
pub open spec fn all_phonemes(ph: PhonologyModel) -> Seq<PhonemeModel> {
    ph.vowels + ph.onset_consonants + ph.clusters + ph.coda_consonants
}

/// The first phoneme of `v` with the given symbol.
pub open spec fn first_with_symbol(v: Seq<PhonemeModel>, symbol: Seq<char>) -> Option<
    PhonemeModel,
>
    decreases v.len(),
{
    if v.len() == 0 {
        None
    } else if v[0].symbol == symbol {
        Some(v[0])
    } else {
        first_with_symbol(v.drop_first(), symbol)
    }
}

/// The first phoneme with the given symbol in search order.
pub open spec fn lookup_phoneme(ph: PhonologyModel, symbol: Seq<char>) -> Option<PhonemeModel> {
    first_with_symbol(all_phonemes(ph), symbol)
}

pub proof fn lemma_first_with_symbol_append(a: Seq<PhonemeModel>, b: Seq<PhonemeModel>, symbol: Seq<char>)
    ensures
        first_with_symbol(a + b, symbol) == (match first_with_symbol(a, symbol) {
            Some(p) => Some(p),
            None => first_with_symbol(b, symbol),
        }),
    decreases a.len(),
{
    if a.len() == 0 {
        assert(a + b =~= b);
    } else {
        assert((a + b)[0] == a[0]);
        assert((a + b).drop_first() =~= a.drop_first() + b);
        lemma_first_with_symbol_append(a.drop_first(), b, symbol);
    }
}

/// A found phoneme carries the searched symbol and comes from the list.
pub proof fn lemma_first_with_symbol_found(v: Seq<PhonemeModel>, symbol: Seq<char>)
    ensures
        first_with_symbol(v, symbol) matches Some(p) ==> p.symbol == symbol && v.contains(p),
        first_with_symbol(v, symbol) is None ==> forall|i: int|
            0 <= i < v.len() ==> #[trigger] v[i].symbol != symbol,
    decreases v.len(),
{
    if v.len() > 0 {
        lemma_first_with_symbol_found(v.drop_first(), symbol);
        if v[0].symbol != symbol {
            if let Some(p) = first_with_symbol(v, symbol) {
                let k = choose|k: int| 0 <= k < v.drop_first().len() && v.drop_first()[k] == p;
                assert(v[k + 1] == p);
            } else {
                assert forall|i: int| 0 <= i < v.len() implies #[trigger] v[i].symbol != symbol by {
                    if i > 0 {
                        assert(v[i] == v.drop_first()[i - 1]);
                    }
                }
            }
        } else {
            assert(v[0] == v[0]);
        }
    }
}

/// Finds the first phoneme of `list` with the given symbol.
fn find_in<'a>(list: &'a Vec<WeightedPhoneme>, symbol: &str) -> (r: Option<&'a WeightedPhoneme>)
    ensures
        match r {
            Some(p) => first_with_symbol(phoneme_models(list@), symbol@) == Some(p@),
            None => first_with_symbol(phoneme_models(list@), symbol@) is None,
        },
{
    let ghost models = phoneme_models(list@);
    let mut i: usize = 0;
    assert(models.skip(0) =~= models);
    while i < list.len()
        invariant
            0 <= i <= list@.len(),
            models == phoneme_models(list@),
            first_with_symbol(models, symbol@) == first_with_symbol(models.skip(i as int), symbol@),
        decreases list@.len() - i,
    {
        let ghost rest = models.skip(i as int);
        assert(rest[0] == list@[i as int]@);
        if str_eq(list[i].symbol.as_str(), symbol) {
            return Some(&list[i]);
        }
        assert(rest.drop_first() =~= models.skip(i as int + 1));
        i = i + 1;
    }
    None
}

impl Phonology {
    pub fn new(
        vowels: Vec<WeightedPhoneme>,
        onset_consonants: Vec<WeightedPhoneme>,
        clusters: Vec<WeightedPhoneme>,
        coda_consonants: Vec<WeightedPhoneme>,
        templates: Vec<SyllableTemplate>,
        constraints: PhonotacticConstraints,
    ) -> (r: Self)
        ensures
            r.vowels == vowels,
            r.onset_consonants == onset_consonants,
            r.clusters == clusters,
            r.coda_consonants == coda_consonants,
            r.templates == templates,
            r.constraints == constraints,
    {
        Phonology { vowels, onset_consonants, clusters, coda_consonants, templates, constraints }
    }

    /// Draws a syllable template with chance proportional to its weight.
    pub fn sample_template<'a>(&'a self, rng: &mut Random) -> (r: Option<&'a SyllableTemplate>)
        requires
            weight_total(template_weights(self@.templates)) <= u32::MAX,
        ensures
            final(rng)@ == template_outcome(self@, old(rng)@).1,
            match r {
                Some(t) => template_outcome(self@, old(rng)@).0 == Some(t@),
                None => template_outcome(self@, old(rng)@).0 is None,
            },
    {
        let mut weights: Vec<u32> = Vec::new();
        let mut i: usize = 0;
        while i < self.templates.len()
            invariant
                0 <= i <= self@.templates.len(),
                weights@ =~= template_weights(self@.templates).take(i as int),
            decreases self@.templates.len() - i,
        {
            weights.push(self.templates[i].weight);
            i = i + 1;
        }
        assert(weights@ =~= template_weights(self@.templates));
        match rng.weighted_index(weights.as_slice()) {
            Some(index) => Some(&self.templates[index]),
            None => None,
        }
    }

    /// Draws a symbol of the given class with chance proportional to its weight.
    pub fn sample_symbol(&self, class: PhonemeClass, rng: &mut Random) -> (r: Option<String>)
        requires
            weight_total(phoneme_weights(inventory_of(self@, class))) <= u32::MAX,
        ensures
            final(rng)@ == symbol_outcome(self@, class, old(rng)@).1,
            match r {
                Some(s) => symbol_outcome(self@, class, old(rng)@).0 == Some(s@),
                None => symbol_outcome(self@, class, old(rng)@).0 is None,
            },
    {
        let inventory = match class {
            PhonemeClass::OnsetConsonant => &self.onset_consonants,
            PhonemeClass::Cluster => &self.clusters,
            PhonemeClass::Vowel => &self.vowels,
            PhonemeClass::CodaConsonant => &self.coda_consonants,
        };
        let ghost inv = inventory_of(self@, class);
        assert(phoneme_models(inventory@) == inv);
        let mut weights: Vec<u32> = Vec::new();
        let mut i: usize = 0;
        while i < inventory.len()
            invariant
                0 <= i <= inv.len(),
                phoneme_models(inventory@) == inv,
                weights@ =~= phoneme_weights(inv).take(i as int),
            decreases inv.len() - i,
        {
            weights.push(inventory[i].weight);
            i = i + 1;
        }
        assert(weights@ =~= phoneme_weights(inv));
        match rng.weighted_index(weights.as_slice()) {
            Some(index) => Some(inventory[index].symbol.clone()),
            None => None,
        }
    }

    /// Whether the phonotactic constraints admit `form`.
    pub fn allows(&self, form: &WordForm) -> (r: bool)
        ensures
            r == admits(self@, form@),
    {
        if !self.constraints.disallow_initial_vowel {
            return true;
        }
        let phonemes = form.phonemes();
        if phonemes.len() == 0 {
            return false;
        }
        !self.is_vowel_symbol(phonemes[0].as_str())
    }

    /// Whether `symbol` is a vowel: a listed vowel, or a symbol containing `a e i o u y`.
    pub fn is_vowel_symbol(&self, symbol: &str) -> (r: bool)
        ensures
            r == is_vowel(self@, symbol@),
    {
        let mut i: usize = 0;
        while i < self.vowels.len()
            invariant
                0 <= i <= self@.vowels.len(),
                forall|k: int| 0 <= k < i ==> #[trigger] self@.vowels[k].symbol != symbol@,
            decreases self@.vowels.len() - i,
        {
            if str_eq(self.vowels[i].symbol.as_str(), symbol) {
                assert(self@.vowels[i as int].symbol == symbol@);
                return true;
            }
            i = i + 1;
        }
        let chars = chars_of(symbol);
        let mut j: usize = 0;
        while j < chars.len()
            invariant
                0 <= j <= chars@.len(),
                chars@ == symbol@,
                forall|k: int| 0 <= k < j ==> !is_vowel_letter(#[trigger] chars@[k]),
            decreases chars@.len() - j,
        {
            let c = chars[j];
            if c == 'a' || c == 'e' || c == 'i' || c == 'o' || c == 'u' || c == 'y' {
                return true;
            }
            j = j + 1;
        }
        false
    }

    /// Whether `symbol` is not a vowel.
    pub fn is_consonant_symbol(&self, symbol: &str) -> (r: bool)
        ensures
            r == !is_vowel(self@, symbol@),
    {
        !self.is_vowel_symbol(symbol)
    }

    /// The first phoneme with `symbol`, searching vowels, onsets, clusters, then codas.
    pub fn find_phoneme(&self, symbol: &str) -> (r: Option<&WeightedPhoneme>)
        ensures
            match r {
                Some(p) => lookup_phoneme(self@, symbol@) == Some(p@),
                None => lookup_phoneme(self@, symbol@) is None,
            },
    {
        let ghost v = self@;
        proof {
            lemma_first_with_symbol_append(
                v.vowels + v.onset_consonants + v.clusters,
                v.coda_consonants,
                symbol@,
            );
            lemma_first_with_symbol_append(v.vowels + v.onset_consonants, v.clusters, symbol@);
            lemma_first_with_symbol_append(v.vowels, v.onset_consonants, symbol@);
        }
        if let Some(p) = find_in(&self.vowels, symbol) {
            return Some(p);
        }
        if let Some(p) = find_in(&self.onset_consonants, symbol) {
            return Some(p);
        }
        if let Some(p) = find_in(&self.clusters, symbol) {
            return Some(p);
        }
        find_in(&self.coda_consonants, symbol)
    }
}

} // verus!
