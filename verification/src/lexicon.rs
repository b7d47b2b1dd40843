use vstd::prelude::*;

use crate::form::{form_text, WordForm};
use crate::phonology::{
    admits, inventory_of, phoneme_weights, symbol_outcome, template_outcome, weights_fit,
    PhonemeClass, Phonology, PhonologyModel, Slot,
};
use crate::rng::{
    coin_outcome, lemma_weighted_outcome_in_range, next_output, range_outcome, weight_total, Random,
};
use crate::semantics::{id_views, ConceptId};
use crate::text::{lemma_to_set_push, lemma_views_push, str_eq, views};

verus! {

/// The abstract content of a lexeme.
pub struct LexemeModel {
    pub concept: Seq<char>,
    pub form: Seq<Seq<char>>,
}

/// A word of a language: the concept it expresses and its form.
#[derive(Debug, PartialEq, Eq)]
pub struct Lexeme {
    pub concept_id: ConceptId,
    pub form: WordForm,
}

impl View for Lexeme {
    type V = LexemeModel;

    open spec fn view(&self) -> LexemeModel {
        LexemeModel { concept: self.concept_id@, form: self.form@ }
    }
}

impl Clone for Lexeme {
    fn clone(&self) -> (r: Self)
        ensures
            r@ == self@,
    {
        Lexeme { concept_id: self.concept_id.clone(), form: self.form.clone() }
    }
}

pub open spec fn lexeme_models(v: Seq<Lexeme>) -> Seq<LexemeModel> {
    v.map_values(|l: Lexeme| l@)
}

impl Lexeme {
    pub fn new(concept_id: ConceptId, form: WordForm) -> (r: Self)
        ensures
            r@ == (LexemeModel { concept: concept_id@, form: form@ }),
    {
        Lexeme { concept_id, form }
    }
}

/// Bounds on the number of syllables of generated words.
#[derive(Clone, Copy, Debug, PartialEq, Eq, Structural)]
pub struct WordGenerationConfig {
    pub min_syllables: usize,
    pub max_syllables: usize,
}

impl WordGenerationConfig {
    pub fn new(min_syllables: usize, max_syllables: usize) -> (r: Self)
        ensures
            r == (WordGenerationConfig { min_syllables, max_syllables }),
    {
        WordGenerationConfig { min_syllables, max_syllables }
    }
}

/// The syllable count can be drawn without overflow.
pub open spec fn config_drawable(config: WordGenerationConfig) -> bool {
    config.min_syllables == config.max_syllables || config.max_syllables < usize::MAX
}

/// Number of syllables drawn from state `s`, and the state afterwards.
pub open spec fn syllable_count_outcome(config: WordGenerationConfig, s: u64) -> (usize, u64) {
    if config.min_syllables == config.max_syllables {
        (config.min_syllables, s)
    } else {
        range_outcome(s, config.min_syllables, (config.max_syllables + 1) as usize)
    }
}

/// Symbols produced by the first `n` slots of a template, and the state afterwards:
/// an optional slot is skipped unless its coin lands, and a slot whose inventory
/// has no weight produces nothing.
pub open spec fn fill_slots(ph: PhonologyModel, slots: Seq<Slot>, s: u64, n: nat) -> (
    Seq<Seq<char>>,
    u64,
)
    decreases n,
{
    if n == 0 {
        (Seq::empty(), s)
    } else {
        let (acc, s1) = fill_slots(ph, slots, s, (n - 1) as nat);
        let slot = slots[n - 1];
        let (keep, s2) = match slot.optional_probability {
            Some(p) => coin_outcome(s1, p),
            None => (true, s1),
        };
        if !keep {
            (acc, s2)
        } else {
            let (symbol, s3) = symbol_outcome(ph, slot.class, s2);
            match symbol {
                Some(x) => (acc.push(x), s3),
                None => (acc, s3),
            }
        }
    }
}

/// A template's slots are filled first to last: where every slot is required and the
/// inventory of each slot's class holds a single phoneme of positive weight, the symbols
/// produced are those phonemes' symbols, one per slot, in slot order.
pub proof fn law_slots_fill_in_order(ph: PhonologyModel, slots: Seq<Slot>, s: u64)
    requires
        forall|i: int|
            0 <= i < slots.len() ==> (#[trigger] slots[i]).optional_probability is None
                && inventory_of(ph, slots[i].class).len() == 1 && inventory_of(
                ph,
                slots[i].class,
            )[0].weight > 0,
    ensures
        fill_slots(ph, slots, s, slots.len()).0 == slots.map_values(
            |slot: Slot| inventory_of(ph, slot.class)[0].symbol,
        ),
{
    lemma_slots_fill_in_order(ph, slots, s, slots.len());
    assert(slots.map_values(|slot: Slot| inventory_of(ph, slot.class)[0].symbol).take(
        slots.len() as int,
    ) =~= slots.map_values(|slot: Slot| inventory_of(ph, slot.class)[0].symbol));
}

proof fn lemma_slots_fill_in_order(ph: PhonologyModel, slots: Seq<Slot>, s: u64, n: nat)
    requires
        n <= slots.len(),
        forall|i: int|
            0 <= i < slots.len() ==> (#[trigger] slots[i]).optional_probability is None
                && inventory_of(ph, slots[i].class).len() == 1 && inventory_of(
                ph,
                slots[i].class,
            )[0].weight > 0,
    ensures
        fill_slots(ph, slots, s, n).0 == slots.map_values(
            |slot: Slot| inventory_of(ph, slot.class)[0].symbol,
        ).take(n as int),
    decreases n,
{
    let expected = slots.map_values(|slot: Slot| inventory_of(ph, slot.class)[0].symbol);
    if n == 0 {
        assert(expected.take(0) =~= Seq::<Seq<char>>::empty());
    } else {
        lemma_slots_fill_in_order(ph, slots, s, (n - 1) as nat);
        let (acc, s1) = fill_slots(ph, slots, s, (n - 1) as nat);
        let slot = slots[n - 1];
        let inv = inventory_of(ph, slot.class);
        let w = phoneme_weights(inv);
        assert(w.len() == 1);
        assert(w.drop_last() =~= Seq::<u32>::empty());
        assert(weight_total(w.drop_last()) == 0);
        assert(w.last() == w[0]);
        assert(weight_total(w) == w[0] as int);
        let total = weight_total(w);
        let cursor = (next_output(s1) as int) % total;
        crate::rng::lemma_pick_index(w, cursor);
        assert(crate::rng::pick_index(w, cursor) == 0);
        assert(expected.take(n - 1).push(expected[n - 1]) =~= expected.take(n as int));
    }
}

/// Symbols of `n` syllables and the state afterwards; `None` when a template cannot be drawn.
pub open spec fn syllables_outcome(ph: PhonologyModel, s: u64, n: nat) -> Option<
    (Seq<Seq<char>>, u64),
>
    decreases n,
{
    if n == 0 {
        Some((Seq::empty(), s))
    } else {
        match syllables_outcome(ph, s, (n - 1) as nat) {
            None => None,
            Some((acc, s1)) => {
                let (t, s2) = template_outcome(ph, s1);
                match t {
                    None => None,
                    Some(template) => {
                        let (syms, s3) = fill_slots(ph, template.slots, s2, template.slots.len());
                        Some((acc + syms, s3))
                    },
                }
            },
        }
    }
}

/// One candidate word and the state afterwards; `None` when a template cannot be drawn.
pub open spec fn attempt_outcome(ph: PhonologyModel, config: WordGenerationConfig, s: u64) -> Option<
    (Seq<Seq<char>>, u64),
> {
    let (count, s1) = syllable_count_outcome(config, s);
    syllables_outcome(ph, s1, count as nat)
}

/// The first admitted candidate within `tries` candidates, and the state afterwards;
/// `None` when no candidate within the limit is admitted or a template cannot be drawn.
pub open spec fn generation_outcome(
    ph: PhonologyModel,
    config: WordGenerationConfig,
    s: u64,
    tries: nat,
) -> Option<(Seq<Seq<char>>, u64)>
    decreases tries,
{
    if tries == 0 {
        None
    } else {
        match attempt_outcome(ph, config, s) {
            None => None,
            Some((w, s1)) => if admits(ph, w) {
                Some((w, s1))
            } else {
                generation_outcome(ph, config, s1, (tries - 1) as nat)
            },
        }
    }
}

/// Number of candidates a word generation tries before giving up.
pub const WORD_ATTEMPTS: usize = 256;

/// The generated word and the state afterwards, when generation succeeds.
pub open spec fn word_outcome(ph: PhonologyModel, config: WordGenerationConfig, s: u64) -> Option<
    (Seq<Seq<char>>, u64),
> {
    generation_outcome(ph, config, s, WORD_ATTEMPTS as nat)
}

/// The first generated word whose text is not in `used`, within `fuel` generations.
pub open spec fn unique_word(
    ph: PhonologyModel,
    config: WordGenerationConfig,
    s: u64,
    used: Set<Seq<char>>,
    fuel: nat,
) -> Option<(Seq<Seq<char>>, u64)>
    decreases fuel,
{
    if fuel == 0 {
        None
    } else {
        match word_outcome(ph, config, s) {
            None => None,
            Some((w, s1)) => if !used.contains(form_text(w)) {
                Some((w, s1))
            } else {
                unique_word(ph, config, s1, used, (fuel - 1) as nat)
            },
        }
    }
}

/// Generation from `s` eventually yields a word whose text is not in `used`.
pub open spec fn fresh_word_exists(
    ph: PhonologyModel,
    config: WordGenerationConfig,
    s: u64,
    used: Set<Seq<char>>,
) -> bool {
    exists|fuel: nat| #[trigger] unique_word(ph, config, s, used, fuel) is Some
}

/// Enough generations to reach a fresh word from `s`.
pub open spec fn fresh_word_fuel(
    ph: PhonologyModel,
    config: WordGenerationConfig,
    s: u64,
    used: Set<Seq<char>>,
) -> nat {
    choose|fuel: nat| #[trigger] unique_word(ph, config, s, used, fuel) is Some
}

/// The first generated word whose text is not in `used`, and the state afterwards.
pub open spec fn fresh_word(
    ph: PhonologyModel,
    config: WordGenerationConfig,
    s: u64,
    used: Set<Seq<char>>,
) -> Option<(Seq<Seq<char>>, u64)> {
    if fresh_word_exists(ph, config, s, used) {
        unique_word(ph, config, s, used, fresh_word_fuel(ph, config, s, used))
    } else {
        None
    }
}

/// Lexemes for the first `n` concepts, the texts used so far, and the state afterwards.
pub open spec fn lexicon_prefix(
    ph: PhonologyModel,
    config: WordGenerationConfig,
    concepts: Seq<Seq<char>>,
    s: u64,
    n: nat,
) -> Option<(Seq<LexemeModel>, Set<Seq<char>>, u64)>
    decreases n,
{
    if n == 0 {
        Some((Seq::empty(), Set::empty(), s))
    } else {
        match lexicon_prefix(ph, config, concepts, s, (n - 1) as nat) {
            None => None,
            Some((lex, used, s1)) => match fresh_word(ph, config, s1, used) {
                None => None,
                Some((w, s2)) => Some(
                    (
                        lex.push(LexemeModel { concept: concepts[n - 1], form: w }),
                        used.insert(form_text(w)),
                        s2,
                    ),
                ),
            },
        }
    }
}

/// The lexicon for `concepts`, its texts, and the state afterwards, when generation terminates.
pub open spec fn lexicon_outcome(
    ph: PhonologyModel,
    config: WordGenerationConfig,
    concepts: Seq<Seq<char>>,
    s: u64,
) -> Option<(Seq<LexemeModel>, Set<Seq<char>>, u64)> {
    lexicon_prefix(ph, config, concepts, s, concepts.len())
}

/// Within `fuel` generations from `s`, generation gives up at the attempt limit before
/// any word whose text is not in `used` comes up.
pub open spec fn search_fails_within(
    ph: PhonologyModel,
    config: WordGenerationConfig,
    s: u64,
    used: Set<Seq<char>>,
    fuel: nat,
) -> bool
    decreases fuel,
{
    if fuel == 0 {
        false
    } else {
        match word_outcome(ph, config, s) {
            None => true,
            Some((w, s1)) => used.contains(form_text(w)) && search_fails_within(
                ph,
                config,
                s1,
                used,
                (fuel - 1) as nat,
            ),
        }
    }
}

/// The search for a word whose text is not in `used` stops: it finds one, or generation
/// gives up at the attempt limit first.
pub open spec fn search_stops(
    ph: PhonologyModel,
    config: WordGenerationConfig,
    s: u64,
    used: Set<Seq<char>>,
) -> bool {
    fresh_word_exists(ph, config, s, used) || exists|fuel: nat|
        #[trigger] search_fails_within(ph, config, s, used, fuel)
}

/// Every search for a fresh word made for the first `n` concepts stops.
pub open spec fn lexicon_stops(
    ph: PhonologyModel,
    config: WordGenerationConfig,
    concepts: Seq<Seq<char>>,
    s: u64,
    n: nat,
) -> bool
    decreases n,
{
    n == 0 || (lexicon_stops(ph, config, concepts, s, (n - 1) as nat) && match lexicon_prefix(
        ph,
        config,
        concepts,
        s,
        (n - 1) as nat,
    ) {
        None => true,
        Some((lex, used, s1)) => search_stops(ph, config, s1, used),
    })
}

/// Stopping for `n` concepts means stopping for fewer.
pub proof fn lemma_lexicon_stops_prefix(
    ph: PhonologyModel,
    config: WordGenerationConfig,
    concepts: Seq<Seq<char>>,
    s: u64,
    n: nat,
    k: nat,
)
    requires
        lexicon_stops(ph, config, concepts, s, n),
        k <= n,
    ensures
        lexicon_stops(ph, config, concepts, s, k),
    decreases n - k,
{
    if k < n {
        lemma_lexicon_prefix_stops_step(ph, config, concepts, s, n);
        lemma_lexicon_stops_prefix(ph, config, concepts, s, (n - 1) as nat, k);
    }
}

proof fn lemma_lexicon_prefix_stops_step(
    ph: PhonologyModel,
    config: WordGenerationConfig,
    concepts: Seq<Seq<char>>,
    s: u64,
    n: nat,
)
    requires
        lexicon_stops(ph, config, concepts, s, n),
        n > 0,
    ensures
        lexicon_stops(ph, config, concepts, s, (n - 1) as nat),
{
}

/// A lexicon that is generated had every search stop: the stopping condition is weaker
/// than success.
pub proof fn lemma_outcome_stops(
    ph: PhonologyModel,
    config: WordGenerationConfig,
    concepts: Seq<Seq<char>>,
    s: u64,
    n: nat,
)
    requires
        lexicon_prefix(ph, config, concepts, s, n) is Some,
    ensures
        lexicon_stops(ph, config, concepts, s, n),
    decreases n,
{
    if n > 0 {
        lemma_lexicon_prefix_some(ph, config, concepts, s, n, (n - 1) as nat);
        lemma_outcome_stops(ph, config, concepts, s, (n - 1) as nat);
        let (lex, used, s1) = lexicon_prefix(ph, config, concepts, s, (n - 1) as nat).unwrap();
        assert(fresh_word(ph, config, s1, used) is Some);
    }
}

/// Where a search for a fresh word stands with `remaining` generations left: when a
/// fresh word exists (`fresh`), the first one is `target` and comes up within the
/// remaining generations; otherwise generation gives up within them.
#[verifier::opaque]
pub open spec fn search_state(
    ph: PhonologyModel,
    config: WordGenerationConfig,
    s: u64,
    used: Set<Seq<char>>,
    remaining: nat,
    fresh: bool,
    target: Option<(Seq<Seq<char>>, u64)>,
) -> bool {
    if fresh {
        target is Some && unique_word(ph, config, s, used, remaining) == target
    } else {
        search_fails_within(ph, config, s, used, remaining)
    }
}

proof fn lemma_search_start(
    ph: PhonologyModel,
    config: WordGenerationConfig,
    s: u64,
    used: Set<Seq<char>>,
) -> (bound: nat)
    requires
        search_stops(ph, config, s, used),
    ensures
        search_state(
            ph,
            config,
            s,
            used,
            bound,
            fresh_word_exists(ph, config, s, used),
            fresh_word(ph, config, s, used),
        ),
{
    reveal(search_state);
    if fresh_word_exists(ph, config, s, used) {
        fresh_word_fuel(ph, config, s, used)
    } else {
        choose|fuel: nat| #[trigger] search_fails_within(ph, config, s, used, fuel)
    }
}

proof fn lemma_search_gives_up(
    ph: PhonologyModel,
    config: WordGenerationConfig,
    s: u64,
    used: Set<Seq<char>>,
    remaining: nat,
    fresh: bool,
    target: Option<(Seq<Seq<char>>, u64)>,
)
    requires
        search_state(ph, config, s, used, remaining, fresh, target),
        word_outcome(ph, config, s) is None,
    ensures
        !fresh,
{
    reveal(search_state);
}

proof fn lemma_search_finds(
    ph: PhonologyModel,
    config: WordGenerationConfig,
    s: u64,
    used: Set<Seq<char>>,
    remaining: nat,
    fresh: bool,
    target: Option<(Seq<Seq<char>>, u64)>,
    w: Seq<Seq<char>>,
    s1: u64,
)
    requires
        search_state(ph, config, s, used, remaining, fresh, target),
        word_outcome(ph, config, s) == Some((w, s1)),
        !used.contains(form_text(w)),
    ensures
        fresh,
        target == Some((w, s1)),
        remaining > 0,
{
    reveal(search_state);
}

proof fn lemma_search_skips(
    ph: PhonologyModel,
    config: WordGenerationConfig,
    s: u64,
    used: Set<Seq<char>>,
    remaining: nat,
    fresh: bool,
    target: Option<(Seq<Seq<char>>, u64)>,
    w: Seq<Seq<char>>,
    s1: u64,
)
    requires
        search_state(ph, config, s, used, remaining, fresh, target),
        word_outcome(ph, config, s) == Some((w, s1)),
        used.contains(form_text(w)),
    ensures
        remaining > 0,
        search_state(ph, config, s1, used, (remaining - 1) as nat, fresh, target),
{
    reveal(search_state);
}

/// A failed search for the concept after the first `n` makes the whole lexicon fail.
proof fn lemma_lexicon_fails_at(
    ph: PhonologyModel,
    config: WordGenerationConfig,
    concepts: Seq<Seq<char>>,
    s: u64,
    n: nat,
    used: Set<Seq<char>>,
    s1: u64,
)
    requires
        n < concepts.len(),
        lexicon_prefix(ph, config, concepts, s, n) matches Some((lex, u, t)) && u == used && t == s1,
        !fresh_word_exists(ph, config, s1, used),
    ensures
        lexicon_outcome(ph, config, concepts, s) is None,
{
    assert(lexicon_prefix(ph, config, concepts, s, n + 1) is None);
    if lexicon_outcome(ph, config, concepts, s) is Some {
        lemma_lexicon_prefix_some(ph, config, concepts, s, concepts.len(), n + 1);
    }
}

/// A found word extends the lexicon prefix.
proof fn lemma_lexicon_extends(
    ph: PhonologyModel,
    config: WordGenerationConfig,
    concepts: Seq<Seq<char>>,
    s: u64,
    n: nat,
    lex: Seq<LexemeModel>,
    used: Set<Seq<char>>,
    s1: u64,
    w: Seq<Seq<char>>,
    s2: u64,
)
    requires
        n < concepts.len(),
        lexicon_prefix(ph, config, concepts, s, n) == Some((lex, used, s1)),
        fresh_word(ph, config, s1, used) == Some((w, s2)),
    ensures
        lexicon_prefix(ph, config, concepts, s, n + 1) == Some(
            (
                lex.push(LexemeModel { concept: concepts[n as int], form: w }),
                used.insert(form_text(w)),
                s2,
            ),
        ),
{
}

/// Generates words from a phonology.
pub struct LexiconGenerator<'a> {
    phonology: &'a Phonology,
}

impl<'a> LexiconGenerator<'a> {
    pub closed spec fn phonology(&self) -> PhonologyModel {
        self.phonology@
    }

    pub fn new(phonology: &'a Phonology) -> (r: Self)
        ensures
            r.phonology() == phonology@,
    {
        LexiconGenerator { phonology }
    }

    /// Draws syllables until the phonotactic constraints admit the word, trying at
    /// most a fixed number of candidates; `None` when no candidate within the limit is
    /// admitted or a syllable template cannot be drawn.
    pub fn try_generate_word(&self, config: WordGenerationConfig, rng: &mut Random) -> (r: Option<
        WordForm,
    >)
        requires
            weights_fit(self.phonology()),
            config_drawable(config),
        ensures
            match r {
                Some(w) => word_outcome(self.phonology(), config, old(rng)@) == Some((w@, final(rng)@))
                    && admits(self.phonology(), w@),
                None => word_outcome(self.phonology(), config, old(rng)@) is None,
            },
    {
        let ghost ph = self.phonology@;
        let mut attempt: usize = 0;
        while attempt < WORD_ATTEMPTS
            invariant
                0 <= attempt <= WORD_ATTEMPTS,
                ph == self.phonology@,
                weights_fit(ph),
                config_drawable(config),
                word_outcome(ph, config, old(rng)@) == generation_outcome(
                    ph,
                    config,
                    rng@,
                    (WORD_ATTEMPTS - attempt) as nat,
                ),
            decreases WORD_ATTEMPTS - attempt,
        {
            let ghost start = rng@;
            let syllable_count = if config.min_syllables == config.max_syllables {
                config.min_syllables
            } else {
                rng.range_usize(config.min_syllables..(config.max_syllables + 1))
            };
            assert((syllable_count, rng@) == syllable_count_outcome(config, start));
            let ghost after_count = rng@;
            let mut phonemes: Vec<String> = Vec::new();
            let mut k: usize = 0;
            while k < syllable_count
                invariant
                    0 <= k <= syllable_count,
                    ph == self.phonology@,
                    weights_fit(ph),
                    word_outcome(ph, config, old(rng)@) == generation_outcome(
                        ph,
                        config,
                        start,
                        (WORD_ATTEMPTS - attempt) as nat,
                    ),
                    0 <= attempt < WORD_ATTEMPTS,
                    (syllable_count, after_count) == syllable_count_outcome(config, start),
                    syllables_outcome(ph, after_count, k as nat) == Some((views(phonemes@), rng@)),
                decreases syllable_count - k,
            {
                let ghost before_template = rng@;
                let template = match self.phonology.sample_template(rng) {
                    Some(t) => t,
                    None => {
                        proof {
                            assert(syllables_outcome(ph, after_count, k as nat + 1) is None);
                            if syllables_outcome(ph, after_count, syllable_count as nat) is Some {
                                lemma_syllables_prefix_some(
                                    ph,
                                    after_count,
                                    syllable_count as nat,
                                    k as nat + 1,
                                );
                            }
                            assert(attempt_outcome(ph, config, start) is None);
                        }
                        return None;
                    },
                };
                let ghost slots_start = rng@;
                let ghost base = views(phonemes@);
                let mut j: usize = 0;
                while j < template.slots.len()
                    invariant
                        0 <= j <= template.slots@.len(),
                        ph == self.phonology@,
                        weights_fit(ph),
                        (views(phonemes@), rng@) == (
                            base + fill_slots(ph, template.slots@, slots_start, j as nat).0,
                            fill_slots(ph, template.slots@, slots_start, j as nat).1,
                        ),
                    decreases template.slots@.len() - j,
                {
                    let slot = template.slots[j];
                    let ghost before_slot = rng@;
                    let ghost acc = fill_slots(ph, template.slots@, slots_start, j as nat).0;
                    let keep = match slot.optional_probability {
                        Some(probability) => rng.coin(probability),
                        None => true,
                    };
                    if keep {
                        proof {
                            assert(weights_fit(ph));
                        }
                        match self.phonology.sample_symbol(slot.class, rng) {
                            Some(symbol) => {
                                proof {
                                    lemma_views_push(phonemes@, symbol);
                                    assert(base + acc.push(symbol@) =~= (base + acc).push(symbol@));
                                }
                                phonemes.push(symbol);
                            },
                            None => {},
                        }
                    }
                    j = j + 1;
                }
                proof {
                    assert(template.slots@.len() == template@.slots.len());
                }
                k = k + 1;
            }
            let candidate = WordForm::new(phonemes);
            if self.phonology.allows(&candidate) {
                return Some(candidate);
            }
            attempt = attempt + 1;
        }
        proof {
            assert(generation_outcome(ph, config, rng@, 0) is None);
        }
        None
    }

    /// Draws syllables until the phonotactic constraints admit the word, trying at
    /// most a fixed number of candidates (which must suffice).
    pub fn generate_word(&self, config: WordGenerationConfig, rng: &mut Random) -> (r: WordForm)
        requires
            weights_fit(self.phonology()),
            config_drawable(config),
            word_outcome(self.phonology(), config, old(rng)@) is Some,
        ensures
            (r@, final(rng)@) == word_outcome(self.phonology(), config, old(rng)@)->0,
            admits(self.phonology(), r@),
    {
        match self.try_generate_word(config, rng) {
            Some(w) => w,
            None => WordForm::new(Vec::<String>::new()),
        }
    }

    /// A lexeme for each concept, in order, each with a word whose text differs from
    /// the texts of all earlier words; `None` when word generation gives up at its
    /// attempt limit first.
    pub fn try_generate_lexicon(
        &self,
        concepts: &[ConceptId],
        config: WordGenerationConfig,
        rng: &mut Random,
    ) -> (r: Option<Vec<Lexeme>>)
        requires
            weights_fit(self.phonology()),
            config_drawable(config),
            lexicon_stops(self.phonology(), config, id_views(concepts@), old(rng)@, concepts@.len()),
        ensures
            match r {
                Some(v) => lexicon_outcome(self.phonology(), config, id_views(concepts@), old(rng)@)
                    matches Some((lex, used, s)) && lexeme_models(v@) == lex && final(rng)@ == s,
                None => lexicon_outcome(
                    self.phonology(),
                    config,
                    id_views(concepts@),
                    old(rng)@,
                ) is None,
            },
    {
        let ghost ph = self.phonology@;
        let ghost ids = id_views(concepts@);
        let mut used_forms: Vec<String> = Vec::new();
        let mut lexicon: Vec<Lexeme> = Vec::new();
        let mut i: usize = 0;
        while i < concepts.len()
            invariant
                0 <= i <= concepts@.len(),
                ph == self.phonology@,
                ids == id_views(concepts@),
                ids.len() == concepts@.len(),
                weights_fit(ph),
                config_drawable(config),
                lexicon_stops(ph, config, ids, old(rng)@, ids.len()),
                lexicon_prefix(ph, config, ids, old(rng)@, i as nat) == Some(
                    (lexeme_models(lexicon@), views(used_forms@).to_set(), rng@),
                ),
            decreases concepts@.len() - i,
        {
            let ghost used = views(used_forms@).to_set();
            let ghost start = rng@;
            let ghost lex_before = lexeme_models(lexicon@);
            proof {
                lemma_lexicon_stops_prefix(ph, config, ids, old(rng)@, ids.len(), i as nat + 1);
                assert(search_stops(ph, config, start, used));
            }
            let ghost fresh = fresh_word_exists(ph, config, start, used);
            let ghost target = fresh_word(ph, config, start, used);
            let ghost bound: nat = lemma_search_start(ph, config, start, used);
            let ghost mut tries: nat = 0;
            let mut chosen: Option<WordForm> = None;
            while chosen.is_none()
                invariant
                    ph == self.phonology@,
                    weights_fit(ph),
                    config_drawable(config),
                    used == views(used_forms@).to_set(),
                    i < ids.len(),
                    ids == id_views(concepts@),
                    lexeme_models(lexicon@) == lex_before,
                    lexicon_prefix(ph, config, ids, old(rng)@, i as nat) == Some(
                        (lex_before, used, start),
                    ),
                    fresh == fresh_word_exists(ph, config, start, used),
                    target == fresh_word(ph, config, start, used),
                    chosen is None ==> tries <= bound,
                    chosen is None ==> search_state(
                        ph,
                        config,
                        rng@,
                        used,
                        (bound - tries) as nat,
                        fresh,
                        target,
                    ),
                    chosen matches Some(w) ==> fresh && target == Some((w@, rng@)),
                decreases bound - tries,
            {
                let ghost before = rng@;
                let candidate = match self.try_generate_word(config, rng) {
                    Some(w) => w,
                    None => {
                        proof {
                            lemma_search_gives_up(
                                ph,
                                config,
                                before,
                                used,
                                (bound - tries) as nat,
                                fresh,
                                target,
                            );
                            lemma_lexicon_fails_at(
                                ph,
                                config,
                                ids,
                                old(rng)@,
                                i as nat,
                                used,
                                start,
                            );
                        }
                        return None;
                    },
                };
                let text = candidate.text();
                if !contains_text(&used_forms, text.as_str()) {
                    proof {
                        lemma_search_finds(
                            ph,
                            config,
                            before,
                            used,
                            (bound - tries) as nat,
                            fresh,
                            target,
                            candidate@,
                            rng@,
                        );
                        tries = tries + 1;
                    }
                    chosen = Some(candidate);
                } else {
                    proof {
                        lemma_search_skips(
                            ph,
                            config,
                            before,
                            used,
                            (bound - tries) as nat,
                            fresh,
                            target,
                            candidate@,
                            rng@,
                        );
                        tries = tries + 1;
                    }
                }
            }
            let form = match chosen {
                Some(w) => w,
                None => WordForm::new(Vec::<String>::new()),
            };
            proof {
                lemma_lexicon_extends(
                    ph,
                    config,
                    ids,
                    old(rng)@,
                    i as nat,
                    lex_before,
                    used,
                    start,
                    form@,
                    rng@,
                );
            }
            let text = form.text();
            proof {
                lemma_views_push(used_forms@, text);
                lemma_to_set_push(views(used_forms@), text@);
            }
            used_forms.push(text);
            let lexeme = Lexeme::new(concepts[i].clone(), form);
            proof {
                assert(lexeme_models(lexicon@.push(lexeme)) =~= lexeme_models(lexicon@).push(
                    lexeme@,
                ));
            }
            lexicon.push(lexeme);
            i = i + 1;
        }
        Some(lexicon)
    }

    /// A lexeme for each concept, in order, each with a word whose text differs from
    /// the texts of all earlier words (generation must succeed).
    pub fn generate_lexicon(
        &self,
        concepts: &[ConceptId],
        config: WordGenerationConfig,
        rng: &mut Random,
    ) -> (r: Vec<Lexeme>)
        requires
            weights_fit(self.phonology()),
            config_drawable(config),
            lexicon_outcome(self.phonology(), config, id_views(concepts@), old(rng)@) is Some,
        ensures
            (lexeme_models(r@), final(rng)@) == ({
                let (lex, used, s) = lexicon_outcome(
                    self.phonology(),
                    config,
                    id_views(concepts@),
                    old(rng)@,
                )->0;
                (lex, s)
            }),
    {
        proof {
            lemma_outcome_stops(self.phonology(), config, id_views(concepts@), old(rng)@, concepts@.len());
        }
        match self.try_generate_lexicon(concepts, config, rng) {
            Some(v) => v,
            None => Vec::new(),
        }
    }
}

/// Whether `text` is one of `list`.
fn contains_text(list: &Vec<String>, text: &str) -> (r: bool)
    ensures
        r == views(list@).to_set().contains(text@),
{
    let mut i: usize = 0;
    while i < list.len()
        invariant
            0 <= i <= list@.len(),
            forall|k: int| 0 <= k < i ==> #[trigger] views(list@)[k] != text@,
        decreases list@.len() - i,
    {
        if str_eq(list[i].as_str(), text) {
            assert(views(list@)[i as int] == text@);
            return true;
        }
        i = i + 1;
    }
    false
}

/// A successful syllable draw was successful at every earlier syllable.
pub proof fn lemma_syllables_prefix_some(ph: PhonologyModel, s: u64, n: nat, k: nat)
    requires
        syllables_outcome(ph, s, n) is Some,
        k <= n,
    ensures
        syllables_outcome(ph, s, k) is Some,
    decreases n - k,
{
    if k < n {
        lemma_syllables_prefix_some(ph, s, n, k + 1);
    }
}

/// A successful lexicon was successful at every earlier concept.
pub proof fn lemma_lexicon_prefix_some(
    ph: PhonologyModel,
    config: WordGenerationConfig,
    concepts: Seq<Seq<char>>,
    s: u64,
    n: nat,
    k: nat,
)
    requires
        lexicon_prefix(ph, config, concepts, s, n) is Some,
        k <= n,
    ensures
        lexicon_prefix(ph, config, concepts, s, k) is Some,
    decreases n - k,
{
    if k < n {
        lemma_lexicon_prefix_some(ph, config, concepts, s, n, k + 1);
    }
}

/// `symbol` is the symbol of some phoneme in one of the inventories.
pub open spec fn from_inventory(ph: PhonologyModel, symbol: Seq<char>) -> bool {
    exists|c: PhonemeClass, i: int|
        0 <= i < inventory_of(ph, c).len() && #[trigger] inventory_of(ph, c)[i].symbol == symbol
}

pub proof fn lemma_symbol_from_inventory(ph: PhonologyModel, class: PhonemeClass, s: u64)
    ensures
        symbol_outcome(ph, class, s).0 matches Some(x) ==> from_inventory(ph, x),
{
    let inv = inventory_of(ph, class);
    lemma_weighted_outcome_in_range(s, phoneme_weights(inv));
    if let Some(x) = symbol_outcome(ph, class, s).0 {
        let k = crate::rng::weighted_outcome(s, phoneme_weights(inv)).0->0;
        assert(inventory_of(ph, class)[k].symbol == x);
    }
}

pub proof fn lemma_fill_slots_from_inventory(ph: PhonologyModel, slots: Seq<Slot>, s: u64, n: nat)
    requires
        n <= slots.len(),
    ensures
        forall|i: int|
            0 <= i < fill_slots(ph, slots, s, n).0.len() ==> from_inventory(
                ph,
                #[trigger] fill_slots(ph, slots, s, n).0[i],
            ),
    decreases n,
{
    if n > 0 {
        lemma_fill_slots_from_inventory(ph, slots, s, (n - 1) as nat);
        let (acc, s1) = fill_slots(ph, slots, s, (n - 1) as nat);
        let slot = slots[n - 1];
        let (keep, s2) = match slot.optional_probability {
            Some(p) => coin_outcome(s1, p),
            None => (true, s1),
        };
        lemma_symbol_from_inventory(ph, slot.class, s2);
        let r = fill_slots(ph, slots, s, n).0;
        assert forall|i: int| 0 <= i < r.len() implies from_inventory(ph, #[trigger] r[i]) by {
            if i < acc.len() {
                assert(r[i] == acc[i]);
            }
        }
    }
}

pub proof fn lemma_syllables_from_inventory(ph: PhonologyModel, s: u64, n: nat)
    ensures
        syllables_outcome(ph, s, n) matches Some((w, s2)) ==> forall|i: int|
            0 <= i < w.len() ==> from_inventory(ph, #[trigger] w[i]),
    decreases n,
{
    if n > 0 {
        lemma_syllables_from_inventory(ph, s, (n - 1) as nat);
        if let Some((acc, s1)) = syllables_outcome(ph, s, (n - 1) as nat) {
            let (t, s2) = template_outcome(ph, s1);
            if let Some(template) = t {
                lemma_fill_slots_from_inventory(ph, template.slots, s2, template.slots.len());
                let syms = fill_slots(ph, template.slots, s2, template.slots.len()).0;
                let w = acc + syms;
                assert forall|i: int| 0 <= i < w.len() implies from_inventory(ph, #[trigger] w[i]) by {
                    if i < acc.len() {
                        assert(w[i] == acc[i]);
                    } else {
                        assert(w[i] == syms[i - acc.len()]);
                    }
                }
            }
        }
    }
}

pub proof fn lemma_generation_sound(
    ph: PhonologyModel,
    config: WordGenerationConfig,
    s: u64,
    tries: nat,
)
    ensures
        generation_outcome(ph, config, s, tries) matches Some((w, s2)) ==> admits(ph, w)
            && forall|i: int| 0 <= i < w.len() ==> from_inventory(ph, #[trigger] w[i]),
    decreases tries,
{
    if tries > 0 {
        let (count, s1) = syllable_count_outcome(config, s);
        lemma_syllables_from_inventory(ph, s1, count as nat);
        if let Some((w, s2)) = attempt_outcome(ph, config, s) {
            if !admits(ph, w) {
                lemma_generation_sound(ph, config, s2, (tries - 1) as nat);
            }
        }
    }
}

/// Every generated word is admitted by the phonotactic constraints, and each of its
/// symbols is the symbol of a phoneme of the phonology's inventories.
pub proof fn law_generated_word_is_well_formed(
    ph: PhonologyModel,
    config: WordGenerationConfig,
    s: u64,
)
    requires
        word_outcome(ph, config, s) is Some,
    ensures
        admits(ph, word_outcome(ph, config, s).unwrap().0),
        forall|i: int|
            0 <= i < word_outcome(ph, config, s).unwrap().0.len() ==> from_inventory(
                ph,
                #[trigger] word_outcome(ph, config, s).unwrap().0[i],
            ),
{
    lemma_generation_sound(ph, config, s, WORD_ATTEMPTS as nat);
}

pub proof fn lemma_unique_word_sound(
    ph: PhonologyModel,
    config: WordGenerationConfig,
    s: u64,
    used: Set<Seq<char>>,
    fuel: nat,
)
    ensures
        unique_word(ph, config, s, used, fuel) matches Some((w, s2)) ==> admits(ph, w)
            && !used.contains(form_text(w)),
    decreases fuel,
{
    if fuel > 0 {
        lemma_generation_sound(ph, config, s, WORD_ATTEMPTS as nat);
        if let Some((w, s1)) = word_outcome(ph, config, s) {
            if used.contains(form_text(w)) {
                lemma_unique_word_sound(ph, config, s1, used, (fuel - 1) as nat);
            }
        }
    }
}

/// One lexeme per concept in order, admitted forms, pairwise distinct texts, and
/// `used` holding exactly the texts.
pub open spec fn lexicon_well_formed(
    ph: PhonologyModel,
    concepts: Seq<Seq<char>>,
    lex: Seq<LexemeModel>,
    used: Set<Seq<char>>,
    n: nat,
) -> bool {
    &&& lex.len() == n
    &&& forall|i: int| 0 <= i < n ==> #[trigger] lex[i].concept == concepts[i]
    &&& forall|i: int| 0 <= i < n ==> admits(ph, #[trigger] lex[i].form)
    &&& forall|i: int, j: int|
        0 <= i < n && 0 <= j < n && i != j ==> form_text(#[trigger] lex[i].form) != form_text(
            #[trigger] lex[j].form,
        )
    &&& forall|t: Seq<char>|
        #[trigger] used.contains(t) <==> exists|i: int|
            0 <= i < n && form_text(#[trigger] lex[i].form) == t
}

proof fn lemma_lexicon_step(
    ph: PhonologyModel,
    concepts: Seq<Seq<char>>,
    lex: Seq<LexemeModel>,
    used: Set<Seq<char>>,
    n: nat,
    w: Seq<Seq<char>>,
)
    requires
        lexicon_well_formed(ph, concepts, lex, used, n),
        n < concepts.len(),
        admits(ph, w),
        !used.contains(form_text(w)),
    ensures
        lexicon_well_formed(
            ph,
            concepts,
            lex.push(LexemeModel { concept: concepts[n as int], form: w }),
            used.insert(form_text(w)),
            n + 1,
        ),
{
    let lex2 = lex.push(LexemeModel { concept: concepts[n as int], form: w });
    let used2 = used.insert(form_text(w));
    let m = n + 1;
    assert(forall|i: int| 0 <= i < n ==> lex2[i] == lex[i]);
    assert forall|i: int, j: int|
        0 <= i < m && 0 <= j < m && i != j implies form_text(#[trigger] lex2[i].form) != form_text(
        #[trigger] lex2[j].form,
    ) by {
        if i == n {
            assert(used.contains(form_text(lex[j].form)));
        } else if j == n {
            assert(used.contains(form_text(lex[i].form)));
        }
    }
    assert forall|t: Seq<char>|
        #[trigger] used2.contains(t) <==> exists|i: int|
            0 <= i < m && form_text(#[trigger] lex2[i].form) == t by {
        if used2.contains(t) {
            if t == form_text(w) {
                assert(form_text(lex2[n as int].form) == t);
            } else {
                let i = choose|i: int| 0 <= i < n && form_text(#[trigger] lex[i].form) == t;
                assert(form_text(lex2[i].form) == t);
            }
        }
        if exists|i: int| 0 <= i < m && form_text(#[trigger] lex2[i].form) == t {
            let i = choose|i: int| 0 <= i < m && form_text(#[trigger] lex2[i].form) == t;
            if i < n {
                assert(form_text(lex[i].form) == t);
            }
        }
    }
}

/// A generated lexicon has one lexeme per concept, in the concepts' order; every form
/// is admitted by the phonotactic constraints; no two forms have the same text; and
/// the texts used are exactly the texts of the forms.
pub proof fn law_lexicon_is_complete_and_distinct(
    ph: PhonologyModel,
    config: WordGenerationConfig,
    concepts: Seq<Seq<char>>,
    s: u64,
    n: nat,
)
    requires
        lexicon_prefix(ph, config, concepts, s, n) is Some,
        n <= concepts.len(),
    ensures
        ({
            let (lex, used, s2) = lexicon_prefix(ph, config, concepts, s, n).unwrap();
            lexicon_well_formed(ph, concepts, lex, used, n)
        }),
    decreases n,
{
    if n == 0 {
        let (lex, used, s2) = lexicon_prefix(ph, config, concepts, s, n).unwrap();
        assert(lex.len() == 0);
        assert forall|t: Seq<char>|
            #[trigger] used.contains(t) <==> exists|i: int|
                0 <= i < n && form_text(#[trigger] lex[i].form) == t by {
        }
    } else {
        law_lexicon_is_complete_and_distinct(ph, config, concepts, s, (n - 1) as nat);
        let (lex, used, s1) = lexicon_prefix(ph, config, concepts, s, (n - 1) as nat).unwrap();
        let fuel = fresh_word_fuel(ph, config, s1, used);
        lemma_unique_word_sound(ph, config, s1, used, fuel);
        let (w, s2) = fresh_word(ph, config, s1, used).unwrap();
        lemma_lexicon_step(ph, concepts, lex, used, (n - 1) as nat, w);
    }
}

} // verus!
