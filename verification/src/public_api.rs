use vstd::prelude::*;

use crate::corpus::CorpusLoadReport;
use crate::text::{
    char_is_ascii_letter, char_is_ascii_space, chars_of, decimal, decimal_string,
    is_ascii_letter, is_ascii_space, owned, push_str, views,
};

verus! {

// ---------------------------------------------------------------------------
// What counts as English text
// ---------------------------------------------------------------------------

/// Punctuation that English prose may hold.
pub open spec fn is_prose_mark(c: char) -> bool {
    c == '.' || c == ',' || c == '!' || c == '?' || c == ';' || c == ':' || c == '\'' || c == '"'
        || c == '-' || c == '(' || c == ')'
}

/// Only ASCII letters, ASCII white space and prose punctuation, with at least one letter.
pub open spec fn is_english_like(cs: Seq<char>) -> bool {
    &&& forall|i: int|
        0 <= i < cs.len() ==> is_ascii_letter(#[trigger] cs[i]) || is_ascii_space(cs[i])
            || is_prose_mark(cs[i])
    &&& exists|i: int| 0 <= i < cs.len() && is_ascii_letter(#[trigger] cs[i])
}

/// Whether `text` holds only ASCII letters, ASCII white space and the punctuation
/// `. , ! ? ; : ' " - ( )`, and at least one letter; digits, other symbols and other
/// scripts are refused.
pub fn looks_like_english_sentence(text: &str) -> (r: bool)
    ensures
        r == is_english_like(text@),
{
    let cs = chars_of(text);
    let mut has_letter = false;
    let mut i: usize = 0;
    while i < cs.len()
        invariant
            0 <= i <= cs@.len(),
            cs@ == text@,
            forall|k: int|
                0 <= k < i ==> is_ascii_letter(#[trigger] cs@[k]) || is_ascii_space(cs@[k])
                    || is_prose_mark(cs@[k]),
            has_letter <==> exists|k: int| 0 <= k < i && is_ascii_letter(#[trigger] cs@[k]),
        decreases cs@.len() - i,
    {
        let c = cs[i];
        if char_is_ascii_letter(c) {
            has_letter = true;
        } else if !char_is_ascii_space(c) && !(c == '.' || c == ',' || c == '!' || c == '?' || c
            == ';' || c == ':' || c == '\'' || c == '"' || c == '-' || c == '(' || c == ')') {
            assert(!is_english_like(text@));
            return false;
        }
        i = i + 1;
    }
    has_letter
}

/// The English-like texts of `texts`, in order.
pub open spec fn english_only(texts: Seq<Seq<char>>) -> Seq<Seq<char>> {
    texts.filter(|t: Seq<char>| is_english_like(t))
}

/// Only ASCII letters (the empty word included).
pub open spec fn is_plain_word(w: Seq<char>) -> bool {
    forall|i: int| 0 <= i < w.len() ==> is_ascii_letter(#[trigger] w[i])
}

fn plain_word(word: &str) -> (r: bool)
    ensures
        r == is_plain_word(word@),
{
    let cs = chars_of(word);
    let mut i: usize = 0;
    while i < cs.len()
        invariant
            0 <= i <= cs@.len(),
            cs@ == word@,
            forall|k: int| 0 <= k < i ==> is_ascii_letter(#[trigger] cs@[k]),
        decreases cs@.len() - i,
    {
        if !char_is_ascii_letter(cs[i]) {
            return false;
        }
        i = i + 1;
    }
    true
}

proof fn lemma_filter_push(s: Seq<Seq<char>>, x: Seq<char>, keep: spec_fn(Seq<char>) -> bool)
    ensures
        s.push(x).filter(keep) == (if keep(x) {
            s.filter(keep).push(x)
        } else {
            s.filter(keep)
        }),
{
    reveal(Seq::filter);
    assert(s.push(x).drop_last() =~= s);
}

/// The words made only of ASCII letters, in order.
pub fn plain_words(words: Vec<String>) -> (r: Vec<String>)
    ensures
        views(r@) == views(words@).filter(|w: Seq<char>| is_plain_word(w)),
{
    let ghost keep = |w: Seq<char>| is_plain_word(w);
    let mut out: Vec<String> = Vec::new();
    let mut i: usize = 0;
    assert(views(words@).take(0).filter(keep) =~= Seq::<Seq<char>>::empty()) by {
        reveal(Seq::filter);
    }
    while i < words.len()
        invariant
            0 <= i <= words@.len(),
            keep == (|w: Seq<char>| is_plain_word(w)),
            views(out@) == views(words@).take(i as int).filter(keep),
        decreases words@.len() - i,
    {
        proof {
            assert(views(words@).take(i as int + 1) =~= views(words@).take(i as int).push(
                words@[i as int]@,
            ));
            lemma_filter_push(views(words@).take(i as int), words@[i as int]@, keep);
        }
        if plain_word(words[i].as_str()) {
            let w = words[i].clone();
            proof {
                crate::text::lemma_views_push(out@, w);
            }
            out.push(w);
        }
        i = i + 1;
    }
    assert(views(words@).take(words@.len() as int) =~= views(words@));
    out
}

/// The English-like texts of `texts`, in order, at most `limit` of them.
pub fn english_passages(texts: Vec<String>, limit: usize) -> (r: Vec<String>)
    ensures
        views(r@) == (if english_only(views(texts@)).len() > limit {
            english_only(views(texts@)).take(limit as int)
        } else {
            english_only(views(texts@))
        }),
{
    let ghost keep = |t: Seq<char>| is_english_like(t);
    let ghost all = english_only(views(texts@));
    let mut out: Vec<String> = Vec::new();
    let mut i: usize = 0;
    assert(views(texts@).take(0).filter(keep) =~= Seq::<Seq<char>>::empty()) by {
        reveal(Seq::filter);
    }
    while i < texts.len() && out.len() < limit
        invariant
            0 <= i <= texts@.len(),
            keep == (|t: Seq<char>| is_english_like(t)),
            all == english_only(views(texts@)),
            views(out@) == views(texts@).take(i as int).filter(keep),
            out@.len() <= limit,
        decreases texts@.len() - i,
    {
        proof {
            assert(views(texts@).take(i as int + 1) =~= views(texts@).take(i as int).push(
                texts@[i as int]@,
            ));
            lemma_filter_push(views(texts@).take(i as int), texts@[i as int]@, keep);
        }
        if looks_like_english_sentence(texts[i].as_str()) {
            let t = texts[i].clone();
            proof {
                crate::text::lemma_views_push(out@, t);
            }
            out.push(t);
        }
        i = i + 1;
    }
    proof {
        lemma_filter_prefix(views(texts@), keep, i as int);
        if i == texts@.len() {
            assert(views(texts@).take(i as int) =~= views(texts@));
        } else {
            assert(out@.len() == limit);
            assert(all.take(limit as int) =~= views(out@));
        }
    }
    out
}

/// Filtering a prefix gives a prefix of the filtered sequence.
proof fn lemma_filter_prefix(s: Seq<Seq<char>>, keep: spec_fn(Seq<char>) -> bool, i: int)
    requires
        0 <= i <= s.len(),
    ensures
        s.take(i).filter(keep).len() <= s.filter(keep).len(),
        s.filter(keep).take(s.take(i).filter(keep).len() as int) == s.take(i).filter(keep),
    decreases s.len() - i,
{
    if i < s.len() {
        lemma_filter_prefix(s, keep, i + 1);
        assert(s.take(i + 1) =~= s.take(i).push(s[i]));
        lemma_filter_push(s.take(i), s[i], keep);
        let a = s.take(i).filter(keep);
        let b = s.take(i + 1).filter(keep);
        assert(b.take(a.len() as int) =~= a);
        assert(s.filter(keep).take(a.len() as int) =~= s.filter(keep).take(b.len() as int).take(
            a.len() as int,
        ));
    } else {
        assert(s.take(i) =~= s);
        assert(s.filter(keep).take(s.filter(keep).len() as int) =~= s.filter(keep));
    }
}

// ---------------------------------------------------------------------------
// Request sizes
// ---------------------------------------------------------------------------

/// `v` brought into `[low, high]`.
pub open spec fn clamped(v: int, low: int, high: int) -> int {
    if v < low {
        low
    } else if v > high {
        high
    } else {
        v
    }
}

/// Passages wanted for a context window: one per 25 words, between 10 and 400.
pub fn sentence_target(context_window: usize) -> (r: usize)
    ensures
        r == clamped(context_window as int / 25, 10, 400),
{
    let t = context_window / 25;
    if t < 10 {
        10
    } else if t > 400 {
        400
    } else {
        t
    }
}

/// Words to ask the word service for: the target, between 1 and 1500.
pub fn word_request_count(target: usize) -> (r: usize)
    ensures
        r == clamped(target as int, 1, 1500),
{
    if target < 1 {
        1
    } else if target > 1500 {
        1500
    } else {
        target
    }
}

/// Paragraphs to ask the filler-text service for: the target, between 1 and 50.
pub fn paragraph_request_count(target: usize) -> (r: usize)
    ensures
        r == clamped(target as int, 1, 50),
{
    if target < 1 {
        1
    } else if target > 50 {
        50
    } else {
        target
    }
}

// ---------------------------------------------------------------------------
// Quotes gathered in batches
// ---------------------------------------------------------------------------

/// The abstract state of a quote collection.
pub struct QuoteCollectionModel {
    pub target: usize,
    pub remaining: usize,
    pub quotes: Seq<Seq<char>>,
    pub done: bool,
}

/// Gathers English-like quotes in batches of at most 50 until `target` are held, the
/// count asked for is reached, or a batch brings none.
#[derive(Debug)]
pub struct QuoteCollection {
    target: usize,
    remaining: usize,
    quotes: Vec<String>,
    done: bool,
}

impl View for QuoteCollection {
    type V = QuoteCollectionModel;

    closed spec fn view(&self) -> QuoteCollectionModel {
        QuoteCollectionModel {
            target: self.target,
            remaining: self.remaining,
            quotes: views(self.quotes@),
            done: self.done,
        }
    }
}

/// The size of the next batch to ask for, if one is to be asked for.
pub open spec fn next_batch(m: QuoteCollectionModel) -> Option<usize> {
    if m.done || m.remaining == 0 {
        None
    } else if m.remaining < 50 {
        Some(m.remaining)
    } else {
        Some(50usize)
    }
}

/// The collection after a batch of quotes came back.
pub open spec fn after_batch(m: QuoteCollectionModel, batch: Seq<Seq<char>>) -> QuoteCollectionModel {
    let english = english_only(batch);
    if english.len() == 0 {
        QuoteCollectionModel { done: true, ..m }
    } else {
        let quotes = m.quotes + english;
        QuoteCollectionModel {
            target: m.target,
            remaining: if m.remaining > english.len() {
                (m.remaining - english.len()) as usize
            } else {
                0usize
            },
            quotes,
            done: quotes.len() >= m.target,
        }
    }
}

impl QuoteCollection {
    /// A collection of `target` quotes with nothing gathered yet.
    pub fn new(target: usize) -> (r: Self)
        ensures
            r@ == (QuoteCollectionModel {
                target,
                remaining: target,
                quotes: Seq::empty(),
                done: false,
            }),
    {
        let r = QuoteCollection { target, remaining: target, quotes: Vec::new(), done: false };
        assert(views(r.quotes@) =~= Seq::empty());
        r
    }

    /// How many quotes to ask for next, or `None` when gathering is over.
    pub fn next_batch_size(&self) -> (r: Option<usize>)
        ensures
            r == next_batch(self@),
    {
        if self.done || self.remaining == 0 {
            None
        } else if self.remaining < 50 {
            Some(self.remaining)
        } else {
            Some(50)
        }
    }

    /// Takes in a batch: its English-like quotes (blank ones are never English-like) are
    /// kept; an empty result ends the gathering.
    pub fn add_batch(&mut self, batch: Vec<String>)
        ensures
            final(self)@ == after_batch(old(self)@, views(batch@)),
    {
        let count = batch.len();
        proof {
            views(batch@).lemma_filter_len(|t: Seq<char>| is_english_like(t));
            assert(english_only(views(batch@)).len() <= count);
        }
        let english = english_passages(batch, usize::MAX);
        let ghost e = views(english@);
        assert(e == english_only(views(batch@)));
        if english.len() == 0 {
            self.done = true;
            return;
        }
        let n = english.len();
        self.remaining = if self.remaining > n {
            self.remaining - n
        } else {
            0
        };
        let mut english = english;
        let ghost before = self.quotes@;
        let ghost added = english@;
        self.quotes.append(&mut english);
        assert(views(before + added) =~= views(before) + views(added));
        self.done = self.quotes.len() >= self.target;
    }

    /// The gathered quotes, at most `target` of them, or an error when there are none.
    pub fn finish(self) -> (r: Result<Vec<String>, String>)
        ensures
            r is Err <==> self@.quotes.len() == 0,
            r matches Err(e) ==> e@ == "DummyJSON returned no passages"@,
            r matches Ok(q) ==> views(q@) == (if self@.quotes.len() > self@.target {
                self@.quotes.take(self@.target as int)
            } else {
                self@.quotes
            }),
    {
        if self.quotes.len() == 0 {
            return Err(owned("DummyJSON returned no passages"));
        }
        let mut quotes = self.quotes;
        if quotes.len() > self.target {
            quotes.truncate(self.target);
            assert(views(quotes@) =~= views(self.quotes@).take(self.target as int));
        }
        Ok(quotes)
    }
}

// ---------------------------------------------------------------------------
// Passage sources and the assembled report
// ---------------------------------------------------------------------------

/// The services that passages are taken from, in the order they are tried.
#[derive(Clone, Copy, Debug, PartialEq, Eq, Structural)]
pub enum PassageService {
    DummyJson,
    BaconIpsum,
}

impl PassageService {
    /// The service tried first.
    pub fn first() -> (r: Self)
        ensures
            r == PassageService::DummyJson,
    {
        PassageService::DummyJson
    }

    /// The service to try once this one has brought no passages, if any is left.
    pub fn next_after_failure(self) -> (r: Option<Self>)
        ensures
            r == (match self {
                PassageService::DummyJson => Some(PassageService::BaconIpsum),
                PassageService::BaconIpsum => None::<PassageService>,
            }),
    {
        match self {
            PassageService::DummyJson => Some(PassageService::BaconIpsum),
            PassageService::BaconIpsum => None,
        }
    }
}

/// How a service's passages are credited in a report.
pub open spec fn passage_source(service: PassageService, target: usize) -> Seq<char> {
    match service {
        PassageService::DummyJson => "DummyJSON random quotes toward "@ + decimal(target as nat)
            + " passages"@,
        PassageService::BaconIpsum => "Bacon Ipsum batched paragraphs toward "@ + decimal(
            target as nat,
        ) + " passages"@,
    }
}

/// The error when a service brought no passage.
pub open spec fn no_passages(service: PassageService) -> Seq<char> {
    match service {
        PassageService::DummyJson => "DummyJSON returned no passages"@,
        PassageService::BaconIpsum => "Bacon Ipsum returned no passages"@,
    }
}

/// What a service's answer amounts to: its passages with their credit when there are
/// any, or the error to report.
pub fn passage_outcome(
    service: PassageService,
    target: usize,
    result: Result<Vec<String>, String>,
) -> (r: Result<(Vec<String>, String), String>)
    ensures
        match result {
            Ok(p) => if p@.len() > 0 {
                r matches Ok((q, source)) && q@ == p@ && source@ == passage_source(service, target)
            } else {
                r matches Err(e) && e@ == no_passages(service)
            },
            Err(e) => r matches Err(e2) && e2@ == e@,
        },
{
    match result {
        Ok(passages) => {
            if passages.len() > 0 {
                let mut source = String::new();
                match service {
                    PassageService::DummyJson => push_str(&mut source, "DummyJSON random quotes toward "),
                    PassageService::BaconIpsum => push_str(&mut source, "Bacon Ipsum batched paragraphs toward "),
                }
                let n = decimal_string(target);
                push_str(&mut source, n.as_str());
                push_str(&mut source, " passages");
                Ok((passages, source))
            } else {
                match service {
                    PassageService::DummyJson => Err(owned("DummyJSON returned no passages")),
                    PassageService::BaconIpsum => Err(owned("Bacon Ipsum returned no passages")),
                }
            }
        },
        Err(e) => Err(e),
    }
}

/// Messages joined by ` | `.
pub open spec fn joined_errors(errors: Seq<Seq<char>>) -> Seq<char> {
    crate::form::join(errors, " | "@)
}

/// Joins error messages with ` | `.
pub fn join_errors(errors: &Vec<String>) -> (r: String)
    ensures
        r@ == joined_errors(views(errors@)),
{
    let ghost parts = views(errors@);
    let mut out = String::new();
    let mut i: usize = 0;
    while i < errors.len()
        invariant
            0 <= i <= errors@.len(),
            parts == views(errors@),
            out@ == crate::form::join(parts.take(i as int), " | "@),
        decreases errors@.len() - i,
    {
        proof {
            crate::form::lemma_join_push(parts.take(i as int), " | "@, parts[i as int]);
            assert(parts.take(i as int).push(parts[i as int]) =~= parts.take(i as int + 1));
        }
        if i > 0 {
            push_str(&mut out, " | ");
        }
        push_str(&mut out, errors[i].as_str());
        i = i + 1;
    }
    assert(parts.take(errors@.len() as int) =~= parts);
    out
}

/// The credit for the word service.
pub open spec fn word_source(word_target: usize) -> Seq<char> {
    "Random Word API generated "@ + decimal(word_target as nat) + " words"@
}

/// The report built from the two services' answers: the words and passages as glosses
/// and sentences, a credit for each service that brought something, no files; or, when
/// neither brought anything, the errors met, joined by ` | `.
pub fn assemble_public_corpus(
    word_target: usize,
    words: Result<Vec<String>, String>,
    passages: Result<(Vec<String>, String), String>,
) -> (r: Result<CorpusLoadReport, String>)
    ensures
        ({
            let glosses: Seq<String> = match words {
                Ok(w) => w@,
                Err(_) => Seq::empty(),
            };
            let sentences: Seq<String> = match passages {
                Ok((s, _)) => s@,
                Err(_) => Seq::empty(),
            };
            let errors: Seq<Seq<char>> = match (words, passages) {
                (Err(a), Err(b)) => seq![a@, b@],
                (Err(a), Ok(_)) => seq![a@],
                (Ok(_), Err(b)) => seq![b@],
                (Ok(_), Ok(_)) => Seq::empty(),
            };
            let credits: Seq<Seq<char>> = (if glosses.len() > 0 {
                seq![word_source(word_target)]
            } else {
                Seq::empty()
            }) + match passages {
                Ok((_, source)) => seq![source@],
                Err(_) => Seq::empty(),
            };
            &&& r is Err <==> glosses.len() == 0 && sentences.len() == 0
            &&& r matches Err(e) ==> e@ == joined_errors(errors)
            &&& r matches Ok(report) ==> report.files@.len() == 0 && report.glosses@ == glosses
                && report.sentences@ == sentences && views(report.api_sources@) == credits
        }),
{
    let ghost words_g = words;
    let ghost passages_g = passages;
    let mut api_sources: Vec<String> = Vec::new();
    let mut errors: Vec<String> = Vec::new();
    let glosses = match words {
        Ok(w) => {
            if w.len() > 0 {
                let mut credit = String::new();
                push_str(&mut credit, "Random Word API generated ");
                let n = decimal_string(word_target);
                push_str(&mut credit, n.as_str());
                push_str(&mut credit, " words");
                api_sources.push(credit);
            }
            w
        },
        Err(e) => {
            errors.push(e);
            Vec::new()
        },
    };
    let sentences = match passages {
        Ok((s, source)) => {
            api_sources.push(source);
            s
        },
        Err(e) => {
            errors.push(e);
            Vec::new()
        },
    };
    assert(views(errors@) =~= match (words_g, passages_g) {
        (Err(a), Err(b)) => seq![a@, b@],
        (Err(a), Ok(_)) => seq![a@],
        (Ok(_), Err(b)) => seq![b@],
        (Ok(_), Ok(_)) => Seq::<Seq<char>>::empty(),
    });
    if glosses.len() == 0 && sentences.len() == 0 {
        return Err(join_errors(&errors));
    }
    assert(views(api_sources@) =~= (if glosses@.len() > 0 {
        seq![word_source(word_target)]
    } else {
        Seq::<Seq<char>>::empty()
    }) + match passages_g {
        Ok((_, source)) => seq![source@],
        Err(_) => Seq::<Seq<char>>::empty(),
    });
    Ok(CorpusLoadReport { files: Vec::new(), glosses, sentences, api_sources })
}

} // verus!
