use vstd::prelude::*;

use crate::phonology::{lookup_phoneme, Phonology, PhonologyModel};
use crate::text::{lemma_views_push, owned, push_str, str_eq, views};

verus! {

/// Concatenation of a sequence of strings joined by `sep`.
pub open spec fn join(parts: Seq<Seq<char>>, sep: Seq<char>) -> Seq<char>
    decreases parts.len(),
{
    if parts.len() == 0 {
        Seq::empty()
    } else if parts.len() == 1 {
        parts[0]
    } else {
        join(parts.drop_last(), sep) + sep + parts.last()
    }
}

pub proof fn lemma_join_push(parts: Seq<Seq<char>>, sep: Seq<char>, x: Seq<char>)
    ensures
        join(parts.push(x), sep) == (if parts.len() == 0 {
            x
        } else {
            join(parts, sep) + sep + x
        }),
{
    assert(parts.push(x).drop_last() =~= parts);
}

/// Sequences of phoneme symbols that a word form can be built from.
pub trait IntoPhonemes: Sized {
    spec fn symbols(&self) -> Seq<Seq<char>>;

    fn into_phonemes(self) -> (r: Vec<String>)
        ensures
            views(r@) == self.symbols(),
    ;
}

impl IntoPhonemes for Vec<String> {
    open spec fn symbols(&self) -> Seq<Seq<char>> {
        views(self@)
    }

    fn into_phonemes(self) -> (r: Vec<String>) {
        self
    }
}

impl<'a> IntoPhonemes for Vec<&'a str> {
    open spec fn symbols(&self) -> Seq<Seq<char>> {
        self@.map_values(|s: &str| s@)
    }

    fn into_phonemes(self) -> (r: Vec<String>) {
        let mut out: Vec<String> = Vec::new();
        let mut i: usize = 0;
        while i < self.len()
            invariant
                0 <= i <= self@.len(),
                views(out@) =~= self@.map_values(|s: &str| s@).take(i as int),
            decreases self@.len() - i,
        {
            let item = owned(self[i]);
            proof {
                lemma_views_push(out@, item);
            }
            out.push(item);
            i = i + 1;
        }
        out
    }
}

impl<'a, const N: usize> IntoPhonemes for [&'a str; N] {
    open spec fn symbols(&self) -> Seq<Seq<char>> {
        self@.map_values(|s: &str| s@)
    }

    fn into_phonemes(self) -> (r: Vec<String>) {
        let mut out: Vec<String> = Vec::new();
        let mut i: usize = 0;
        while i < N
            invariant
                0 <= i <= N,
                self@.len() == N,
                views(out@) =~= self@.map_values(|s: &str| s@).take(i as int),
            decreases N - i,
        {
            let item = owned(self[i]);
            proof {
                lemma_views_push(out@, item);
            }
            out.push(item);
            i = i + 1;
        }
        out
    }
}

/// A word as a sequence of phoneme symbols.
#[derive(Debug, PartialEq, Eq, Hash)]
pub struct WordForm {
    phonemes: Vec<String>,
}

impl View for WordForm {
    type V = Seq<Seq<char>>;

    closed spec fn view(&self) -> Seq<Seq<char>> {
        views(self.phonemes@)
    }
}

/// The written form: the symbols run together.
pub open spec fn form_text(form: Seq<Seq<char>>) -> Seq<char> {
    form.flatten()
}

/// Reading aid for one phoneme symbol.
pub open spec fn approximate_pronunciation_of(p: Seq<char>) -> Seq<char> {
    if p == "a"@ {
        "ah"@
    } else if p == "ae"@ {
        "eye"@
    } else if p == "e"@ {
        "eh"@
    } else if p == "i"@ {
        "ee"@
    } else if p == "o"@ {
        "oh"@
    } else if p == "u"@ {
        "oo"@
    } else {
        p
    }
}

/// The reading aid of a form: each symbol's reading joined by hyphens.
pub open spec fn form_pronunciation(form: Seq<Seq<char>>) -> Seq<char> {
    join(form.map_values(|p: Seq<char>| approximate_pronunciation_of(p)), "-"@)
}

/// The IPA rendering of one symbol: the IPA of the first phoneme with that symbol,
/// or the symbol itself where that phoneme has none or no phoneme has the symbol.
pub open spec fn ipa_of(ph: PhonologyModel, symbol: Seq<char>) -> Seq<char> {
    match lookup_phoneme(ph, symbol) {
        Some(p) => match p.ipa {
            Some(ipa) => ipa,
            None => symbol,
        },
        None => symbol,
    }
}

/// The IPA rendering of a form: the rendering of each symbol, run together.
pub open spec fn form_ipa(ph: PhonologyModel, form: Seq<Seq<char>>) -> Seq<char> {
    form.map_values(|p: Seq<char>| ipa_of(ph, p)).flatten()
}

/// Clones a list of strings.
pub fn clone_strings(v: &Vec<String>) -> (r: Vec<String>)
    ensures
        r@ == v@,
{
    let mut out: Vec<String> = Vec::new();
    let mut i: usize = 0;
    while i < v.len()
        invariant
            0 <= i <= v@.len(),
            out@ =~= v@.take(i as int),
        decreases v@.len() - i,
    {
        out.push(v[i].clone());
        i = i + 1;
    }
    assert(out@ =~= v@);
    out
}

impl Clone for WordForm {
    fn clone(&self) -> (r: Self)
        ensures
            r@ == self@,
    {
        WordForm { phonemes: clone_strings(&self.phonemes) }
    }
}

pub fn approximate_pronunciation(phoneme: &str) -> (r: String)
    ensures
        r@ == approximate_pronunciation_of(phoneme@),
{
    if str_eq(phoneme, "a") {
        owned("ah")
    } else if str_eq(phoneme, "ae") {
        owned("eye")
    } else if str_eq(phoneme, "e") {
        owned("eh")
    } else if str_eq(phoneme, "i") {
        owned("ee")
    } else if str_eq(phoneme, "o") {
        owned("oh")
    } else if str_eq(phoneme, "u") {
        owned("oo")
    } else {
        owned(phoneme)
    }
}

impl WordForm {
    /// A form made of the given symbols, in order.
    pub fn new<P: IntoPhonemes>(phonemes: P) -> (r: Self)
        ensures
            r@ == phonemes.symbols(),
    {
        WordForm { phonemes: phonemes.into_phonemes() }
    }

    /// The symbols of the form.
    pub fn phonemes(&self) -> (r: &[String])
        ensures
            views(r@) == self@,
    {
        self.phonemes.as_slice()
    }

    /// The written form: all symbols run together.
    pub fn text(&self) -> (r: String)
        ensures
            r@ == form_text(self@),
    {
        let mut out = String::new();
        let mut i: usize = 0;
        while i < self.phonemes.len()
            invariant
                0 <= i <= self@.len(),
                out@ == self@.take(i as int).flatten(),
            decreases self@.len() - i,
        {
            push_str(&mut out, self.phonemes[i].as_str());
            proof {
                let t = self@.take(i as int + 1);
                assert(t.drop_last() =~= self@.take(i as int));
                t.lemma_flatten_and_flatten_alt_are_equivalent();
                self@.take(i as int).lemma_flatten_and_flatten_alt_are_equivalent();
            }
            i = i + 1;
        }
        assert(self@.take(self@.len() as int) =~= self@);
        out
    }

    /// A reading aid: the approximate pronunciation of each symbol, joined by hyphens.
    pub fn pronunciation(&self) -> (r: String)
        ensures
            r@ == form_pronunciation(self@),
    {
        let ghost parts = self@.map_values(|p: Seq<char>| approximate_pronunciation_of(p));
        let mut out = String::new();
        let mut i: usize = 0;
        while i < self.phonemes.len()
            invariant
                0 <= i <= self@.len(),
                parts == self@.map_values(|p: Seq<char>| approximate_pronunciation_of(p)),
                out@ == join(parts.take(i as int), "-"@),
            decreases self@.len() - i,
        {
            proof {
                lemma_join_push(parts.take(i as int), "-"@, parts[i as int]);
                assert(parts.take(i as int).push(parts[i as int]) =~= parts.take(i as int + 1));
            }
            if i > 0 {
                push_str(&mut out, "-");
            }
            let p = approximate_pronunciation(self.phonemes[i].as_str());
            push_str(&mut out, p.as_str());
            i = i + 1;
        }
        assert(parts.take(self@.len() as int) =~= parts);
        out
    }

    /// The IPA rendering of the form under `phonology`.
    pub fn to_ipa_string(&self, phonology: &Phonology) -> (r: String)
        ensures
            r@ == form_ipa(phonology@, self@),
    {
        let ghost parts = self@.map_values(|p: Seq<char>| ipa_of(phonology@, p));
        let mut out = String::new();
        let mut i: usize = 0;
        while i < self.phonemes.len()
            invariant
                0 <= i <= self@.len(),
                parts == self@.map_values(|p: Seq<char>| ipa_of(phonology@, p)),
                out@ == parts.take(i as int).flatten(),
            decreases self@.len() - i,
        {
            let symbol = self.phonemes[i].as_str();
            match phonology.find_phoneme(symbol) {
                Some(p) => match &p.ipa {
                    Some(ipa) => push_str(&mut out, ipa.as_str()),
                    None => push_str(&mut out, symbol),
                },
                None => push_str(&mut out, symbol),
            }
            proof {
                let t = parts.take(i as int + 1);
                assert(t.drop_last() =~= parts.take(i as int));
                t.lemma_flatten_and_flatten_alt_are_equivalent();
                parts.take(i as int).lemma_flatten_and_flatten_alt_are_equivalent();
            }
            i = i + 1;
        }
        assert(parts.take(self@.len() as int) =~= parts);
        out
    }

    /// This form with `prefix` placed before its symbols.
    pub fn with_prefix<P: IntoPhonemes>(&self, prefix: P) -> (r: Self)
        ensures
            r@ == prefix.symbols() + self@,
    {
        let mut phonemes = prefix.into_phonemes();
        let mut i: usize = 0;
        let ghost start = views(phonemes@);
        while i < self.phonemes.len()
            invariant
                0 <= i <= self@.len(),
                views(phonemes@) =~= start + self@.take(i as int),
            decreases self@.len() - i,
        {
            let item = self.phonemes[i].clone();
            proof {
                lemma_views_push(phonemes@, item);
            }
            phonemes.push(item);
            i = i + 1;
        }
        assert(self@.take(self@.len() as int) =~= self@);
        WordForm { phonemes }
    }

    /// This form with `suffix` placed after its symbols.
    pub fn with_suffix<P: IntoPhonemes>(&self, suffix: P) -> (r: Self)
        ensures
            r@ == self@ + suffix.symbols(),
    {
        let mut phonemes = clone_strings(&self.phonemes);
        let tail = suffix.into_phonemes();
        let mut i: usize = 0;
        while i < tail.len()
            invariant
                0 <= i <= tail@.len(),
                views(phonemes@) =~= self@ + views(tail@).take(i as int),
            decreases tail@.len() - i,
        {
            let item = tail[i].clone();
            proof {
                lemma_views_push(phonemes@, item);
            }
            phonemes.push(item);
            i = i + 1;
        }
        assert(views(tail@).take(tail@.len() as int) =~= views(tail@));
        WordForm { phonemes }
    }
}

} // verus!
