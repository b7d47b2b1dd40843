use vstd::prelude::*;

use crate::form::{clone_strings, WordForm};
use crate::phonology::{is_vowel, lookup_phoneme, clone_features, PhonemeFeature, Phonology, PhonologyModel};
use crate::rng::{coin_outcome, Probability, Random};
use crate::text::{lemma_views_push, owned, str_eq, views, IntoText};

verus! {

/// The abstract content of a matcher.
pub enum MatcherModel {
    Any,
    Start,
    End,
    Exact(Seq<char>),
    OneOf(Seq<Seq<char>>),
    Vowel,
    Consonant,
    HasFeature(PhonemeFeature),
    HasFeatures(Seq<PhonemeFeature>),
}

/// A condition on the symbol next to a changing phoneme (or on its absence).
#[derive(Debug, PartialEq, Eq)]
pub enum Matcher {
    Any,
    Start,
    End,
    Exact(String),
    OneOf(Vec<String>),
    Vowel,
    Consonant,
    HasFeature(PhonemeFeature),
    HasFeatures(Vec<PhonemeFeature>),
}

impl View for Matcher {
    type V = MatcherModel;

    open spec fn view(&self) -> MatcherModel {
        match self {
            Matcher::Any => MatcherModel::Any,
            Matcher::Start => MatcherModel::Start,
            Matcher::End => MatcherModel::End,
            Matcher::Exact(s) => MatcherModel::Exact(s@),
            Matcher::OneOf(v) => MatcherModel::OneOf(views(v@)),
            Matcher::Vowel => MatcherModel::Vowel,
            Matcher::Consonant => MatcherModel::Consonant,
            Matcher::HasFeature(f) => MatcherModel::HasFeature(*f),
            Matcher::HasFeatures(v) => MatcherModel::HasFeatures(v@),
        }
    }
}

impl Clone for Matcher {
    fn clone(&self) -> (r: Self)
        ensures
            r@ == self@,
    {
        match self {
            Matcher::Any => Matcher::Any,
            Matcher::Start => Matcher::Start,
            Matcher::End => Matcher::End,
            Matcher::Exact(s) => Matcher::Exact(s.clone()),
            Matcher::OneOf(v) => Matcher::OneOf(clone_strings(v)),
            Matcher::Vowel => Matcher::Vowel,
            Matcher::Consonant => Matcher::Consonant,
            Matcher::HasFeature(f) => Matcher::HasFeature(*f),
            Matcher::HasFeatures(v) => Matcher::HasFeatures(clone_features(v)),
        }
    }
}

/// Whether a matcher accepts a neighbouring symbol (`None` at a word edge).
pub open spec fn matcher_accepts(m: MatcherModel, symbol: Option<Seq<char>>, ph: PhonologyModel) -> bool {
    match m {
        MatcherModel::Any => true,
        MatcherModel::Start => symbol is None,
        MatcherModel::End => symbol is None,
        MatcherModel::Exact(expected) => symbol == Some(expected),
        MatcherModel::OneOf(options) => symbol matches Some(s) && options.contains(s),
        MatcherModel::Vowel => symbol matches Some(s) && is_vowel(ph, s),
        MatcherModel::Consonant => symbol matches Some(s) && !is_vowel(ph, s),
        MatcherModel::HasFeature(f) => symbol matches Some(s) && (lookup_phoneme(ph, s) matches Some(
            p,
        ) && p.features.contains(f)),
        MatcherModel::HasFeatures(fs) => symbol matches Some(s) && (lookup_phoneme(ph, s) matches Some(
            p,
        ) && has_all_features(p.features, fs)),
    }
}

/// Every feature of `want` is in `have`.
pub open spec fn has_all_features(have: Seq<PhonemeFeature>, want: Seq<PhonemeFeature>) -> bool {
    forall|k: int| 0 <= k < want.len() ==> have.contains(#[trigger] want[k])
}

/// The abstract content of an environment.
pub struct EnvironmentModel {
    pub left: MatcherModel,
    pub right: MatcherModel,
}

/// Conditions on both neighbours of a changing phoneme.
#[derive(Debug, PartialEq, Eq)]
pub struct Environment {
    pub left: Matcher,
    pub right: Matcher,
}

impl View for Environment {
    type V = EnvironmentModel;

    open spec fn view(&self) -> EnvironmentModel {
        EnvironmentModel { left: self.left@, right: self.right@ }
    }
}

impl Clone for Environment {
    fn clone(&self) -> (r: Self)
        ensures
            r@ == self@,
    {
        Environment { left: self.left.clone(), right: self.right.clone() }
    }
}

/// The symbol just before position `index`, if any.
pub open spec fn left_neighbour(symbols: Seq<Seq<char>>, index: int) -> Option<Seq<char>> {
    if index == 0 || index - 1 >= symbols.len() {
        None
    } else {
        Some(symbols[index - 1])
    }
}

/// The symbol just after position `index`, if any.
pub open spec fn right_neighbour(symbols: Seq<Seq<char>>, index: int) -> Option<Seq<char>> {
    if index + 1 < symbols.len() {
        Some(symbols[index + 1])
    } else {
        None
    }
}

/// Whether the environment holds around position `index`.
pub open spec fn environment_holds(
    env: EnvironmentModel,
    index: int,
    symbols: Seq<Seq<char>>,
    ph: PhonologyModel,
) -> bool {
    matcher_accepts(env.left, left_neighbour(symbols, index), ph) && matcher_accepts(
        env.right,
        right_neighbour(symbols, index),
        ph,
    )
}

impl Matcher {
    fn matches(&self, symbol: Option<&str>, phonology: &Phonology) -> (r: bool)
        ensures
            r == matcher_accepts(
                self@,
                match symbol {
                    Some(s) => Some(s@),
                    None => None,
                },
                phonology@,
            ),
    {
        match self {
            Matcher::Any => true,
            Matcher::Start => symbol.is_none(),
            Matcher::End => symbol.is_none(),
            Matcher::Exact(expected) => match symbol {
                Some(actual) => str_eq(actual, expected.as_str()),
                None => false,
            },
            Matcher::OneOf(options) => match symbol {
                Some(actual) => {
                    let mut i: usize = 0;
                    while i < options.len()
                        invariant
                            0 <= i <= options@.len(),
                            self@ == MatcherModel::OneOf(views(options@)),
                            symbol == Some(actual),
                            forall|k: int| 0 <= k < i ==> #[trigger] views(options@)[k] != actual@,
                        decreases options@.len() - i,
                    {
                        if str_eq(options[i].as_str(), actual) {
                            assert(views(options@)[i as int] == actual@);
                            assert(views(options@).contains(actual@));
                            return true;
                        }
                        i = i + 1;
                    }
                    false
                },
                None => false,
            },
            Matcher::Vowel => match symbol {
                Some(actual) => phonology.is_vowel_symbol(actual),
                None => false,
            },
            Matcher::Consonant => match symbol {
                Some(actual) => phonology.is_consonant_symbol(actual),
                None => false,
            },
            Matcher::HasFeature(feature) => match symbol {
                Some(actual) => match phonology.find_phoneme(actual) {
                    Some(p) => p.features.has(*feature),
                    None => false,
                },
                None => false,
            },
            Matcher::HasFeatures(features) => match symbol {
                Some(actual) => match phonology.find_phoneme(actual) {
                    Some(p) => {
                        let mut i: usize = 0;
                        while i < features.len()
                            invariant
                                0 <= i <= features@.len(),
                                self@ == MatcherModel::HasFeatures(features@),
                                symbol == Some(actual),
                                lookup_phoneme(phonology@, actual@) == Some(p@),
                                forall|k: int| 0 <= k < i ==> p@.features.contains(#[trigger] features@[k]),
                            decreases features@.len() - i,
                        {
                            if !p.features.has(features[i]) {
                                assert(!p@.features.contains(features@[i as int]));
                                assert(!has_all_features(p@.features, features@));
                                return false;
                            }
                            i = i + 1;
                        }
                        true
                    },
                    None => false,
                },
                None => false,
            },
        }
    }
}

impl Environment {
    /// No condition on either side.
    pub fn anywhere() -> (r: Self)
        ensures
            r@ == (EnvironmentModel { left: MatcherModel::Any, right: MatcherModel::Any }),
    {
        Environment { left: Matcher::Any, right: Matcher::Any }
    }

    pub fn between(left: Matcher, right: Matcher) -> (r: Self)
        ensures
            r@ == (EnvironmentModel { left: left@, right: right@ }),
    {
        Environment { left, right }
    }

    fn matches(&self, index: usize, symbols: &[String], phonology: &Phonology) -> (r: bool)
        requires
            index < symbols@.len(),
        ensures
            r == environment_holds(self@, index as int, views(symbols@), phonology@),
    {
        let left = if index == 0 {
            None
        } else {
            Some(symbols[index - 1].as_str())
        };
        let right = if index + 1 < symbols.len() {
            Some(symbols[index + 1].as_str())
        } else {
            None
        };
        self.left.matches(left, phonology) && self.right.matches(right, phonology)
    }
}

/// The abstract content of a sound change.
pub struct SoundChangeModel {
    pub name: Seq<char>,
    pub from: Seq<char>,
    pub to: Seq<Seq<char>>,
    pub probability: Probability,
    pub environment: EnvironmentModel,
}

/// A rule rewriting a phoneme in an environment, with some chance at each site.
#[derive(Debug, PartialEq, Eq)]
pub struct SoundChange {
    pub name: String,
    pub from: String,
    pub to: Vec<String>,
    pub probability: Probability,
    pub environment: Environment,
}

impl View for SoundChange {
    type V = SoundChangeModel;

    open spec fn view(&self) -> SoundChangeModel {
        SoundChangeModel {
            name: self.name@,
            from: self.from@,
            to: views(self.to@),
            probability: self.probability,
            environment: self.environment@,
        }
    }
}

impl Clone for SoundChange {
    fn clone(&self) -> (r: Self)
        ensures
            r@ == self@,
    {
        SoundChange {
            name: self.name.clone(),
            from: self.from.clone(),
            to: clone_strings(&self.to),
            probability: self.probability,
            environment: self.environment.clone(),
        }
    }
}

pub open spec fn change_models(v: Seq<SoundChange>) -> Seq<SoundChangeModel> {
    v.map_values(|c: SoundChange| c@)
}

/// Whether position `index` of `form` is a site of the change: the symbol is the
/// source symbol and the environment holds.
pub open spec fn is_site(
    change: SoundChangeModel,
    form: Seq<Seq<char>>,
    index: int,
    ph: PhonologyModel,
) -> bool {
    form[index] == change.from && environment_holds(change.environment, index, form, ph)
}

/// The first `n` positions of `form` after the change, and the generator state;
/// a coin is flipped at each site, left to right.
pub open spec fn apply_prefix(
    change: SoundChangeModel,
    form: Seq<Seq<char>>,
    ph: PhonologyModel,
    s: u64,
    n: nat,
) -> (Seq<Seq<char>>, u64)
    decreases n,
{
    if n == 0 {
        (Seq::empty(), s)
    } else {
        let (acc, s1) = apply_prefix(change, form, ph, s, (n - 1) as nat);
        let i = n - 1;
        if is_site(change, form, i, ph) {
            let (hit, s2) = coin_outcome(s1, change.probability);
            if hit {
                (acc + change.to, s2)
            } else {
                (acc.push(form[i]), s2)
            }
        } else {
            (acc.push(form[i]), s1)
        }
    }
}

/// The form after one application of `change`, and the generator state afterwards.
pub open spec fn apply_outcome(
    change: SoundChangeModel,
    form: Seq<Seq<char>>,
    ph: PhonologyModel,
    s: u64,
) -> (Seq<Seq<char>>, u64) {
    apply_prefix(change, form, ph, s, form.len())
}

/// The form after applying `changes` in order, and the generator state afterwards.
pub open spec fn apply_sequence_outcome(
    changes: Seq<SoundChangeModel>,
    form: Seq<Seq<char>>,
    ph: PhonologyModel,
    s: u64,
) -> (Seq<Seq<char>>, u64)
    decreases changes.len(),
{
    if changes.len() == 0 {
        (form, s)
    } else {
        let (f1, s1) = apply_sequence_outcome(changes.drop_last(), form, ph, s);
        apply_outcome(changes.last(), f1, ph, s1)
    }
}


/// Where no position of the form is a site of the change, or the change never fires,
/// applying it leaves the form as it was and draws nothing.
pub proof fn law_change_only_at_sites(
    change: SoundChangeModel,
    form: Seq<Seq<char>>,
    ph: PhonologyModel,
    s: u64,
)
    requires
        change.probability == Probability::Never || forall|i: int|
            0 <= i < form.len() ==> !#[trigger] is_site(change, form, i, ph),
    ensures
        apply_outcome(change, form, ph, s) == (form, s),
{
    lemma_prefix_unchanged(change, form, ph, s, form.len());
    assert(form.take(form.len() as int) =~= form);
}

proof fn lemma_prefix_unchanged(
    change: SoundChangeModel,
    form: Seq<Seq<char>>,
    ph: PhonologyModel,
    s: u64,
    n: nat,
)
    requires
        n <= form.len(),
        change.probability == Probability::Never || forall|i: int|
            0 <= i < form.len() ==> !#[trigger] is_site(change, form, i, ph),
    ensures
        apply_prefix(change, form, ph, s, n) == (form.take(n as int), s),
    decreases n,
{
    if n > 0 {
        lemma_prefix_unchanged(change, form, ph, s, (n - 1) as nat);
        assert(form.take(n - 1).push(form[n - 1]) =~= form.take(n as int));
    }
}

/// A change that is certain to fire draws nothing from the generator, so its result does
/// not depend on the generator's state.
pub proof fn law_certain_change_is_deterministic(
    change: SoundChangeModel,
    form: Seq<Seq<char>>,
    ph: PhonologyModel,
    s: u64,
    t: u64,
)
    requires
        change.probability == Probability::Always,
    ensures
        apply_outcome(change, form, ph, s).1 == s,
        apply_outcome(change, form, ph, s).0 == apply_outcome(change, form, ph, t).0,
{
    lemma_prefix_certain(change, form, ph, s, t, form.len());
}

proof fn lemma_prefix_certain(
    change: SoundChangeModel,
    form: Seq<Seq<char>>,
    ph: PhonologyModel,
    s: u64,
    t: u64,
    n: nat,
)
    requires
        change.probability == Probability::Always,
    ensures
        apply_prefix(change, form, ph, s, n).1 == s,
        apply_prefix(change, form, ph, s, n).0 == apply_prefix(change, form, ph, t, n).0,
    decreases n,
{
    if n > 0 {
        lemma_prefix_certain(change, form, ph, s, t, (n - 1) as nat);
    }
}

/// A change that rewrites a symbol into exactly one symbol keeps the length of the form.
pub proof fn law_single_symbol_change_keeps_length(
    change: SoundChangeModel,
    form: Seq<Seq<char>>,
    ph: PhonologyModel,
    s: u64,
)
    requires
        change.to.len() == 1,
    ensures
        apply_outcome(change, form, ph, s).0.len() == form.len(),
{
    lemma_prefix_length(change, form, ph, s, form.len());
}

proof fn lemma_prefix_length(
    change: SoundChangeModel,
    form: Seq<Seq<char>>,
    ph: PhonologyModel,
    s: u64,
    n: nat,
)
    requires
        change.to.len() == 1,
    ensures
        apply_prefix(change, form, ph, s, n).0.len() == n,
    decreases n,
{
    if n > 0 {
        lemma_prefix_length(change, form, ph, s, (n - 1) as nat);
    }
}

/// Applying a list of changes made of two parts is applying the first part, then the
/// second to its result, with the generator carried along.
pub proof fn law_change_sequence_composes(
    first: Seq<SoundChangeModel>,
    second: Seq<SoundChangeModel>,
    form: Seq<Seq<char>>,
    ph: PhonologyModel,
    s: u64,
)
    ensures
        apply_sequence_outcome(first + second, form, ph, s) == apply_sequence_outcome(
            second,
            apply_sequence_outcome(first, form, ph, s).0,
            ph,
            apply_sequence_outcome(first, form, ph, s).1,
        ),
    decreases second.len(),
{
    if second.len() == 0 {
        assert(first + second =~= first);
    } else {
        assert((first + second).drop_last() =~= first + second.drop_last());
        assert((first + second).last() == second.last());
        law_change_sequence_composes(first, second.drop_last(), form, ph, s);
    }
}

/// The left matcher of an environment looks at the symbol just before the position (none
/// at the start of the word) and the right matcher at the symbol just after it (none at
/// the end).
pub proof fn law_environment_reads_neighbours(
    env: EnvironmentModel,
    index: int,
    form: Seq<Seq<char>>,
    ph: PhonologyModel,
)
    requires
        0 <= index < form.len(),
    ensures
        environment_holds(env, index, form, ph) == (matcher_accepts(
            env.left,
            if index == 0 {
                None
            } else {
                Some(form[index - 1])
            },
            ph,
        ) && matcher_accepts(
            env.right,
            if index + 1 == form.len() {
                None
            } else {
                Some(form[index + 1])
            },
            ph,
        )),
{
}

/// What a change that always fires makes of the symbol at position `i`: the
/// replacement where the symbol is the source and both neighbours are accepted, the
/// symbol itself elsewhere.
pub open spec fn rewritten_at(
    change: SoundChangeModel,
    form: Seq<Seq<char>>,
    ph: PhonologyModel,
    i: int,
) -> Seq<Seq<char>> {
    let before = if i == 0 {
        None
    } else {
        Some(form[i - 1])
    };
    let after = if i + 1 == form.len() {
        None
    } else {
        Some(form[i + 1])
    };
    if form[i] == change.from && matcher_accepts(change.environment.left, before, ph)
        && matcher_accepts(change.environment.right, after, ph) {
        change.to
    } else {
        seq![form[i]]
    }
}

/// A change that always fires rewrites every occurrence of its source symbol whose left
/// neighbour the left matcher accepts and whose right neighbour the right matcher
/// accepts, and keeps every other symbol, in order.
pub proof fn law_certain_change_rewrites_every_site(
    change: SoundChangeModel,
    form: Seq<Seq<char>>,
    ph: PhonologyModel,
    s: u64,
)
    requires
        change.probability == Probability::Always,
    ensures
        apply_outcome(change, form, ph, s).0 == Seq::new(
            form.len(),
            |i: int| rewritten_at(change, form, ph, i),
        ).flatten(),
{
    lemma_certain_prefix(change, form, ph, s, form.len());
}

proof fn lemma_certain_prefix(
    change: SoundChangeModel,
    form: Seq<Seq<char>>,
    ph: PhonologyModel,
    s: u64,
    n: nat,
)
    requires
        change.probability == Probability::Always,
        n <= form.len(),
    ensures
        apply_prefix(change, form, ph, s, n).0 == Seq::new(
            n,
            |i: int| rewritten_at(change, form, ph, i),
        ).flatten(),
        apply_prefix(change, form, ph, s, n).1 == s,
    decreases n,
{
    let pieces = Seq::new(n, |i: int| rewritten_at(change, form, ph, i));
    if n == 0 {
        assert(pieces =~= Seq::<Seq<Seq<char>>>::empty());
    } else {
        lemma_certain_prefix(change, form, ph, s, (n - 1) as nat);
        let prev = Seq::new((n - 1) as nat, |i: int| rewritten_at(change, form, ph, i));
        assert(pieces.drop_last() =~= prev);
        pieces.lemma_flatten_and_flatten_alt_are_equivalent();
        prev.lemma_flatten_and_flatten_alt_are_equivalent();
        let i = n - 1;
        law_environment_reads_neighbours(change.environment, i, form, ph);
        if !is_site(change, form, i, ph) {
            assert(seq![form[i]] =~= Seq::<Seq<char>>::empty().push(form[i]));
            assert(prev.flatten().push(form[i]) =~= prev.flatten() + seq![form[i]]);
        }
    }
}

impl SoundChange {
    pub fn new<N: IntoText, F: IntoText>(
        name: N,
        from: F,
        to: Vec<&str>,
        probability: Probability,
        environment: Environment,
    ) -> (r: Self)
        ensures
            r@ == (SoundChangeModel {
                name: name.text_view(),
                from: from.text_view(),
                to: to@.map_values(|s: &str| s@),
                probability,
                environment: environment@,
            }),
    {
        let mut targets: Vec<String> = Vec::new();
        let mut i: usize = 0;
        while i < to.len()
            invariant
                0 <= i <= to@.len(),
                views(targets@) =~= to@.map_values(|s: &str| s@).take(i as int),
            decreases to@.len() - i,
        {
            let t = owned(to[i]);
            proof {
                lemma_views_push(targets@, t);
            }
            targets.push(t);
            i = i + 1;
        }
        assert(to@.map_values(|s: &str| s@).take(to@.len() as int) =~= to@.map_values(|s: &str| s@));
        SoundChange {
            name: name.into_text(),
            from: from.into_text(),
            to: targets,
            probability,
            environment,
        }
    }

    /// Rewrites, left to right, each occurrence of the source symbol whose environment
    /// holds, each with chance `probability`.
    pub fn apply(&self, form: &WordForm, phonology: &Phonology, rng: &mut Random) -> (r: WordForm)
        ensures
            (r@, final(rng)@) == apply_outcome(self@, form@, phonology@, old(rng)@),
    {
        let source = form.phonemes();
        let mut result: Vec<String> = Vec::new();
        let mut index: usize = 0;
        while index < source.len()
            invariant
                0 <= index <= source@.len(),
                views(source@) == form@,
                (views(result@), rng@) == apply_prefix(
                    self@,
                    form@,
                    phonology@,
                    old(rng)@,
                    index as nat,
                ),
            decreases source@.len() - index,
        {
            let symbol = &source[index];
            assert(form@[index as int] == symbol@);
            if str_eq(symbol.as_str(), self.from.as_str()) && self.environment.matches(
                index,
                source,
                phonology,
            ) && rng.coin(self.probability) {
                let mut k: usize = 0;
                let ghost base = views(result@);
                while k < self.to.len()
                    invariant
                        0 <= k <= self.to@.len(),
                        views(result@) =~= base + views(self.to@).take(k as int),
                    decreases self.to@.len() - k,
                {
                    let t = self.to[k].clone();
                    proof {
                        lemma_views_push(result@, t);
                    }
                    result.push(t);
                    k = k + 1;
                }
                assert(views(self.to@).take(self.to@.len() as int) =~= views(self.to@));
            } else {
                let t = symbol.clone();
                proof {
                    lemma_views_push(result@, t);
                }
                result.push(t);
            }
            index = index + 1;
        }
        WordForm::new(result)
    }

    /// Applies `changes` in order, each to the result of the previous one.
    pub fn apply_sequence(
        changes: &[SoundChange],
        form: &WordForm,
        phonology: &Phonology,
        rng: &mut Random,
    ) -> (r: WordForm)
        ensures
            (r@, final(rng)@) == apply_sequence_outcome(
                change_models(changes@),
                form@,
                phonology@,
                old(rng)@,
            ),
    {
        let mut current = form.clone();
        let mut i: usize = 0;
        while i < changes.len()
            invariant
                0 <= i <= changes@.len(),
                (current@, rng@) == apply_sequence_outcome(
                    change_models(changes@).take(i as int),
                    form@,
                    phonology@,
                    old(rng)@,
                ),
            decreases changes@.len() - i,
        {
            proof {
                let t = change_models(changes@).take(i as int + 1);
                assert(t.drop_last() =~= change_models(changes@).take(i as int));
            }
            current = changes[i].apply(&current, phonology, rng);
            i = i + 1;
        }
        assert(change_models(changes@).take(changes@.len() as int) =~= change_models(changes@));
        current
    }
}

} // verus!
