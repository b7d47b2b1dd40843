use vstd::prelude::*;

use crate::corpus::CorpusLoadReport;
use crate::evolution::{
    gloss_form, is_word_char, join_tokens, join_tokens_prefix, pronounce_token, scan_tokens,
    tokens_of, translate_token, Language, LanguageModel, TokenModel,
};
use crate::form::{form_pronunciation, form_text};
use crate::lexicon::LexemeModel;
use crate::text::{push_str, seq_lt, str_lt, views};

verus! {

// ---------------------------------------------------------------------------
// Rows of the word list
// ---------------------------------------------------------------------------

/// `rows` with `x` placed just after the last row whose concept does not come after
/// `x`'s; rows with equal concepts keep their order.
pub open spec fn insert_row(rows: Seq<LexemeModel>, x: LexemeModel) -> Seq<LexemeModel>
    decreases rows.len(),
{
    if rows.len() == 0 {
        seq![x]
    } else if seq_lt(x.concept, rows.last().concept) {
        insert_row(rows.drop_last(), x).push(rows.last())
    } else {
        rows.push(x)
    }
}

/// The lexemes ordered by concept identifier; lexemes with equal identifiers keep their
/// order in the lexicon.
pub open spec fn rows_by_concept(lex: Seq<LexemeModel>) -> Seq<LexemeModel>
    decreases lex.len(),
{
    if lex.len() == 0 {
        Seq::empty()
    } else {
        insert_row(rows_by_concept(lex.drop_last()), lex.last())
    }
}

/// No row's concept comes after the concept of a later row.
pub open spec fn ordered_by_concept(rows: Seq<LexemeModel>) -> bool {
    forall|i: int, j: int| 0 <= i < j < rows.len() ==> !seq_lt(#[trigger] rows[j].concept, #[trigger] rows[i].concept)
}

/// One line of the word table: identifier, written form, and reading in brackets.
pub open spec fn lexicon_row(l: LexemeModel) -> Seq<char> {
    "| "@ + l.concept + " | "@ + form_text(l.form) + " | ["@ + form_pronunciation(l.form) + "] |\n"@
}

/// The Markdown word table of a language.
pub open spec fn lexicon_markdown(lang: LanguageModel) -> Seq<char> {
    "# English to Concilium: Words\n\n| English | Concilium | Pronunciation |\n| --- | --- | --- |\n"@
        + rows_by_concept(lang.lexicon).map_values(|l: LexemeModel| lexicon_row(l)).flatten()
}

/// The translation of an English text.
pub open spec fn translated(lang: LanguageModel, text: Seq<char>) -> Seq<char> {
    join_tokens(tokens_of(text).map_values(|t: TokenModel| translate_token(lang, t)))
}

/// The pronunciation guide of an English text.
pub open spec fn pronounced(lang: LanguageModel, text: Seq<char>) -> Seq<char> {
    join_tokens(tokens_of(text).map_values(|t: TokenModel| pronounce_token(lang, t)))
}

/// One line of the sentence table: the sentence, its translation and its pronunciation.
pub open spec fn sentence_row(lang: LanguageModel, s: Seq<char>) -> Seq<char> {
    "| "@ + s + " | "@ + translated(lang, s) + " | "@ + pronounced(lang, s) + " |\n"@
}

/// The Markdown sentence table of a language for the given sentences.
pub open spec fn sentences_markdown(lang: LanguageModel, sentences: Seq<Seq<char>>) -> Seq<char> {
    "# English to Concilium: Sentences\n\n| English Sentence | Concilium Sentence | Pronunciation |\n| --- | --- | --- |\n"@
        + sentences.map_values(|s: Seq<char>| sentence_row(lang, s)).flatten()
}

/// The Markdown paragraph table of a language for the given paragraphs: the sentence
/// table's rows under a paragraph heading.
pub open spec fn paragraphs_markdown(lang: LanguageModel, paragraphs: Seq<Seq<char>>) -> Seq<char> {
    "# English to Concilium: Paragraphs\n\n| English Paragraph | Concilium Paragraph | Pronunciation |\n| --- | --- | --- |\n"@
        + paragraphs.map_values(|s: Seq<char>| sentence_row(lang, s)).flatten()
}

/// The whole glossary: the word table, then, when there are sentences, a blank line and
/// the sentence table.
pub open spec fn glossary_markdown(lang: LanguageModel, sentences: Seq<Seq<char>>) -> Seq<char> {
    if sentences.len() == 0 {
        lexicon_markdown(lang)
    } else {
        lexicon_markdown(lang) + "\n"@ + sentences_markdown(lang, sentences)
    }
}

/// The rows of `lex` at the given indices.
pub open spec fn rows_at(lex: Seq<LexemeModel>, idx: Seq<usize>) -> Seq<LexemeModel> {
    idx.map_values(|k: usize| lex[k as int])
}

proof fn lemma_insert_row_split(rows: Seq<LexemeModel>, x: LexemeModel, p: int)
    requires
        0 < p <= rows.len(),
        seq_lt(x.concept, rows[p - 1].concept),
    ensures
        insert_row(rows.take(p), x) + rows.skip(p) == insert_row(rows.take(p - 1), x) + rows.skip(
            p - 1,
        ),
{
    let t = rows.take(p);
    assert(t.drop_last() =~= rows.take(p - 1));
    assert(t.last() == rows[p - 1]);
    assert(insert_row(rows.take(p - 1), x).push(rows[p - 1]) + rows.skip(p) =~= insert_row(
        rows.take(p - 1),
        x,
    ) + rows.skip(p - 1));
}

/// Indices of `lex` in the order of `rows_by_concept`.
fn sorted_row_indices(language: &Language) -> (idx: Vec<usize>)
    ensures
        rows_at(language@.lexicon, idx@) == rows_by_concept(language@.lexicon),
        forall|k: int| 0 <= k < idx@.len() ==> #[trigger] idx@[k] < language@.lexicon.len(),
{
    let ghost lex = language@.lexicon;
    let mut idx: Vec<usize> = Vec::new();
    let mut j: usize = 0;
    assert(rows_at(lex, idx@) =~= rows_by_concept(lex.take(0)));
    while j < language.lexicon.len()
        invariant
            0 <= j <= lex.len(),
            lex == language@.lexicon,
            lex.len() == language.lexicon@.len(),
            rows_at(lex, idx@) == rows_by_concept(lex.take(j as int)),
            forall|k: int| 0 <= k < idx@.len() ==> #[trigger] idx@[k] < lex.len(),
        decreases lex.len() - j,
    {
        let ghost rows = rows_at(lex, idx@);
        let ghost x = lex[j as int];
        let key = language.lexicon[j].concept_id.0.as_str();
        assert(key@ == x.concept);
        let mut p: usize = idx.len();
        assert(rows.take(p as int) =~= rows);
        assert(rows.skip(p as int) =~= Seq::<LexemeModel>::empty());
        while p > 0 && str_lt(key, language.lexicon[idx[p - 1]].concept_id.0.as_str())
            invariant
                0 <= p <= idx@.len(),
                rows == rows_at(lex, idx@),
                lex == language@.lexicon,
                lex.len() == language.lexicon@.len(),
                key@ == x.concept,
                forall|k: int| 0 <= k < idx@.len() ==> #[trigger] idx@[k] < lex.len(),
                insert_row(rows, x) == insert_row(rows.take(p as int), x) + rows.skip(p as int),
            decreases p,
        {
            proof {
                assert(rows[p - 1] == lex[idx@[p - 1] as int]);
                assert(language.lexicon@[idx@[p - 1] as int]@ == lex[idx@[p - 1] as int]);
                lemma_insert_row_split(rows, x, p as int);
            }
            p = p - 1;
        }
        proof {
            if p > 0 {
                assert(rows[p - 1] == lex[idx@[p - 1] as int]);
                assert(language.lexicon@[idx@[p - 1] as int]@ == lex[idx@[p - 1] as int]);
                let t = rows.take(p as int);
                assert(t.last() == rows[p - 1]);
                assert(!seq_lt(x.concept, t.last().concept));
                assert(insert_row(t, x) == t.push(x));
            } else {
                assert(insert_row(rows.take(0), x) == seq![x]);
            }
            assert(lex.take(j as int + 1).drop_last() =~= lex.take(j as int));
            assert(lex.take(j as int + 1).last() == x);
        }
        idx.insert(p, j);
        proof {
            assert(rows_at(lex, idx@) =~= rows.take(p as int).push(x) + rows.skip(p as int));
        }
        j = j + 1;
    }
    assert(lex.take(lex.len() as int) =~= lex);
    idx
}

/// The Markdown table of the language's words, ordered by concept identifier: each
/// row gives the identifier, the written form and the reading in brackets.
pub fn render_lexicon_markdown(language: &Language) -> (r: String)
    ensures
        r@ == lexicon_markdown(language@),
{
    let idx = sorted_row_indices(language);
    let ghost rows = rows_by_concept(language@.lexicon);
    let ghost lines = rows.map_values(|l: LexemeModel| lexicon_row(l));
    let mut output = String::new();
    push_str(
        &mut output,
        "# English to Concilium: Words\n\n| English | Concilium | Pronunciation |\n| --- | --- | --- |\n",
    );
    let ghost header = output@;
    let mut i: usize = 0;
    while i < idx.len()
        invariant
            0 <= i <= idx@.len(),
            rows == rows_by_concept(language@.lexicon),
            lines == rows.map_values(|l: LexemeModel| lexicon_row(l)),
            rows_at(language@.lexicon, idx@) == rows,
            forall|k: int| 0 <= k < idx@.len() ==> #[trigger] idx@[k] < language@.lexicon.len(),
            output@ == header + lines.take(i as int).flatten(),
        decreases idx@.len() - i,
    {
        let lexeme = &language.lexicon[idx[i]];
        assert(lexeme@ == rows[i as int]);
        push_str(&mut output, "| ");
        push_str(&mut output, lexeme.concept_id.0.as_str());
        push_str(&mut output, " | ");
        let text = lexeme.form.text();
        push_str(&mut output, text.as_str());
        push_str(&mut output, " | [");
        let reading = lexeme.form.pronunciation();
        push_str(&mut output, reading.as_str());
        push_str(&mut output, "] |\n");
        proof {
            let t = lines.take(i as int + 1);
            assert(t.drop_last() =~= lines.take(i as int));
            t.lemma_flatten_and_flatten_alt_are_equivalent();
            lines.take(i as int).lemma_flatten_and_flatten_alt_are_equivalent();
            assert(lines[i as int] == lexicon_row(rows[i as int]));
        }
        i = i + 1;
    }
    assert(lines.take(idx@.len() as int) =~= lines);
    output
}

/// One line of the sentence table.
fn sentence_row_string(language: &Language, sentence: &str) -> (r: String)
    ensures
        r@ == sentence_row(language@, sentence@),
{
    let mut row = String::new();
    push_str(&mut row, "| ");
    push_str(&mut row, sentence);
    push_str(&mut row, " | ");
    let translation = language.translate_text(sentence);
    push_str(&mut row, translation.as_str());
    push_str(&mut row, " | ");
    let pronunciation = language.pronunciation_for_text(sentence);
    push_str(&mut row, pronunciation.as_str());
    push_str(&mut row, " |\n");
    row
}

/// The Markdown table of the report's sentences: each row gives the sentence, its
/// translation and its pronunciation guide.
pub fn render_sentences_markdown(language: &Language, corpus: &CorpusLoadReport) -> (r: String)
    ensures
        r@ == sentences_markdown(language@, views(corpus.sentences@)),
{
    let ghost sentences = views(corpus.sentences@);
    let ghost lines = sentences.map_values(|s: Seq<char>| sentence_row(language@, s));
    let mut output = String::new();
    push_str(
        &mut output,
        "# English to Concilium: Sentences\n\n| English Sentence | Concilium Sentence | Pronunciation |\n| --- | --- | --- |\n",
    );
    let ghost header = output@;
    let mut i: usize = 0;
    while i < corpus.sentences.len()
        invariant
            0 <= i <= corpus.sentences@.len(),
            sentences == views(corpus.sentences@),
            lines == sentences.map_values(|s: Seq<char>| sentence_row(language@, s)),
            output@ == header + lines.take(i as int).flatten(),
        decreases corpus.sentences@.len() - i,
    {
        let row = sentence_row_string(language, corpus.sentences[i].as_str());
        push_str(&mut output, row.as_str());
        proof {
            let t = lines.take(i as int + 1);
            assert(t.drop_last() =~= lines.take(i as int));
            t.lemma_flatten_and_flatten_alt_are_equivalent();
            lines.take(i as int).lemma_flatten_and_flatten_alt_are_equivalent();
            assert(lines[i as int] == sentence_row(language@, sentences[i as int]));
        }
        i = i + 1;
    }
    assert(lines.take(corpus.sentences@.len() as int) =~= lines);
    output
}

/// The Markdown table of the paragraphs: each row gives the paragraph, its translation
/// and its pronunciation guide.
pub fn render_paragraphs_markdown(language: &Language, paragraphs: &Vec<String>) -> (r: String)
    ensures
        r@ == paragraphs_markdown(language@, views(paragraphs@)),
{
    let ghost texts = views(paragraphs@);
    let ghost lines = texts.map_values(|s: Seq<char>| sentence_row(language@, s));
    let mut output = String::new();
    push_str(
        &mut output,
        "# English to Concilium: Paragraphs\n\n| English Paragraph | Concilium Paragraph | Pronunciation |\n| --- | --- | --- |\n",
    );
    let ghost header = output@;
    let mut i: usize = 0;
    while i < paragraphs.len()
        invariant
            0 <= i <= paragraphs@.len(),
            texts == views(paragraphs@),
            lines == texts.map_values(|s: Seq<char>| sentence_row(language@, s)),
            output@ == header + lines.take(i as int).flatten(),
        decreases paragraphs@.len() - i,
    {
        let row = sentence_row_string(language, paragraphs[i].as_str());
        push_str(&mut output, row.as_str());
        proof {
            let t = lines.take(i as int + 1);
            assert(t.drop_last() =~= lines.take(i as int));
            t.lemma_flatten_and_flatten_alt_are_equivalent();
            lines.take(i as int).lemma_flatten_and_flatten_alt_are_equivalent();
            assert(lines[i as int] == sentence_row(language@, texts[i as int]));
        }
        i = i + 1;
    }
    assert(lines.take(paragraphs@.len() as int) =~= lines);
    output
}

/// The word table, followed, when the report has sentences, by a blank line and the
/// sentence table.
pub fn render_english_to_concilium(language: &Language, corpus: &CorpusLoadReport) -> (r: String)
    ensures
        r@ == glossary_markdown(language@, views(corpus.sentences@)),
{
    let mut output = render_lexicon_markdown(language);
    if corpus.sentences.len() > 0 {
        push_str(&mut output, "\n");
        let sentences = render_sentences_markdown(language, corpus);
        push_str(&mut output, sentences.as_str());
    }
    output
}

// ---------------------------------------------------------------------------
// Laws
// ---------------------------------------------------------------------------

proof fn lemma_insert_row_facts(rows: Seq<LexemeModel>, x: LexemeModel)
    requires
        ordered_by_concept(rows),
    ensures
        ordered_by_concept(insert_row(rows, x)),
        insert_row(rows, x).to_multiset() == rows.to_multiset().insert(x),
    decreases rows.len(),
{
    broadcast use vstd::seq_lib::group_to_multiset_ensures;
    if rows.len() == 0 {
        assert(seq![x] =~= Seq::<LexemeModel>::empty().push(x));
        assert(rows =~= Seq::<LexemeModel>::empty());
    } else {
        let last = rows.last();
        let init = rows.drop_last();
        assert(init.push(last) =~= rows);
        if seq_lt(x.concept, last.concept) {
            lemma_insert_row_facts(init, x);
            let u = insert_row(init, x);
            let v = u.push(last);
            assert forall|i: int, j: int| 0 <= i < j < v.len() implies !seq_lt(
                #[trigger] v[j].concept,
                #[trigger] v[i].concept,
            ) by {
                if j == v.len() - 1 {
                    assert(u.to_multiset().contains(u[i]));
                    assert(u.to_multiset().count(u[i]) > 0);
                    if u[i] == x {
                        crate::text::lemma_seq_lt_asymmetric(x.concept, last.concept);
                    } else {
                        assert(init.to_multiset().count(u[i]) > 0);
                        assert(init.contains(u[i]));
                        let k = choose|k: int| 0 <= k < init.len() && init[k] == u[i];
                        assert(rows[k] == u[i]);
                        assert(rows[rows.len() - 1] == last);
                    }
                }
            }
        } else {
            let v = rows.push(x);
            assert forall|i: int, j: int| 0 <= i < j < v.len() implies !seq_lt(
                #[trigger] v[j].concept,
                #[trigger] v[i].concept,
            ) by {
                if j == v.len() - 1 && i < rows.len() - 1 {
                    assert(!seq_lt(rows[rows.len() - 1].concept, rows[i].concept));
                    crate::text::lemma_seq_lt_total(x.concept, rows[i].concept);
                    crate::text::lemma_seq_lt_total(rows[rows.len() - 1].concept, rows[i].concept);
                    if seq_lt(x.concept, rows[i].concept) {
                        crate::text::lemma_seq_lt_total(x.concept, last.concept);
                        if last.concept == rows[i].concept {
                        } else {
                            crate::text::lemma_seq_lt_transitive(rows[i].concept, last.concept, x.concept);
                            crate::text::lemma_seq_lt_asymmetric(x.concept, rows[i].concept);
                        }
                    }
                }
            }
        }
    }
}

/// The word table lists every lexeme exactly once, ordered by concept identifier.
pub proof fn law_word_table_sorts_the_lexicon(lex: Seq<LexemeModel>)
    ensures
        ordered_by_concept(rows_by_concept(lex)),
        rows_by_concept(lex).to_multiset() == lex.to_multiset(),
        rows_by_concept(lex).len() == lex.len(),
    decreases lex.len(),
{
    broadcast use vstd::seq_lib::group_to_multiset_ensures;
    if lex.len() > 0 {
        law_word_table_sorts_the_lexicon(lex.drop_last());
        lemma_insert_row_facts(rows_by_concept(lex.drop_last()), lex.last());
        assert(lex.drop_last().push(lex.last()) =~= lex);
    }
    assert(rows_by_concept(lex).len() == rows_by_concept(lex).to_multiset().len());
}

/// A word of lower-case ASCII letters and apostrophes (such as a contraction).
pub open spec fn is_lower_word(w: Seq<char>) -> bool {
    w.len() > 0 && forall|i: int|
        0 <= i < w.len() ==> ('a' <= #[trigger] w[i] && w[i] <= 'z') || w[i] == '\''
}

proof fn lemma_scan_lower_word(w: Seq<char>, n: nat)
    requires
        is_lower_word(w),
        n <= w.len(),
    ensures
        scan_tokens(w, n) == (Seq::<TokenModel>::empty(), w.take(n as int)),
    decreases n,
{
    if n > 0 {
        lemma_scan_lower_word(w, (n - 1) as nat);
        let c = w[n - 1];
        assert(('a' <= c && c <= 'z') || c == '\'');
        assert(is_word_char(c));
        assert(w.take(n - 1).push(c) =~= w.take(n as int));
    }
}

/// A run of lower-case letters and apostrophes is a single word token: an apostrophe
/// inside a word (as in a contraction) does not split it.
pub proof fn law_word_is_one_token(w: Seq<char>)
    requires
        is_lower_word(w),
    ensures
        tokens_of(w) == seq![TokenModel::Word(w)],
{
    lemma_scan_lower_word(w, w.len());
    assert(w.take(w.len() as int) =~= w);
}

/// Translating a single lower-case English word (apostrophes allowed) gives the text of the form of the first
/// lexeme it stands for, or the word itself when it stands for none; its pronunciation
/// guide is that form's reading (or the word) in brackets.
pub proof fn law_word_translates_to_its_form(lang: LanguageModel, w: Seq<char>)
    requires
        is_lower_word(w),
    ensures
        translated(lang, w) == (match gloss_form(lang, w) {
            Some(f) => form_text(f),
            None => w,
        }),
        pronounced(lang, w) == "["@ + (match gloss_form(lang, w) {
            Some(f) => form_pronunciation(f),
            None => w,
        }) + "]"@,
{
    lemma_scan_lower_word(w, w.len());
    assert(w.take(w.len() as int) =~= w);
    assert(tokens_of(w) == seq![TokenModel::Word(w)]);
    let t = seq![TokenModel::Word(w)].map_values(|t: TokenModel| translate_token(lang, t));
    let p = seq![TokenModel::Word(w)].map_values(|t: TokenModel| pronounce_token(lang, t));
    assert(t =~= seq![translate_token(lang, TokenModel::Word(w))]);
    assert(p =~= seq![pronounce_token(lang, TokenModel::Word(w))]);
    assert(join_tokens_prefix(t, 0) == Seq::<char>::empty());
    assert(join_tokens_prefix(p, 0) == Seq::<char>::empty());
    assert(join_tokens_prefix(t, 1) =~= t[0]);
    assert(join_tokens_prefix(p, 1) =~= p[0]);
}

} // verus!
