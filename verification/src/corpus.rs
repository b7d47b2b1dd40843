use std::path::PathBuf;

use vstd::prelude::*;

use crate::form::join;
use crate::text::{
    ascii_lower, char_ascii_lower, char_is_ascii_letter, char_is_white_space, chars_of,
    insert_sorted_unique, is_ascii_letter, is_white_space, lemma_views_push, owned, push_char,
    push_str, string_from_chars, string_from_range, strictly_sorted, views, sorted_distinct,
    lemma_to_set_add, lemma_sorted_of_set,
};

verus! {

#[verifier::external_type_specification]
#[verifier::external_body]
pub struct ExPathBuf(std::path::PathBuf);

// ---------------------------------------------------------------------------
// Lines and trimming
// ---------------------------------------------------------------------------

/// `cs` without leading white space.
pub open spec fn trim_start(cs: Seq<char>) -> Seq<char>
    decreases cs.len(),
{
    if cs.len() > 0 && is_white_space(cs[0]) {
        trim_start(cs.drop_first())
    } else {
        cs
    }
}

/// `cs` without trailing white space.
pub open spec fn trim_end(cs: Seq<char>) -> Seq<char>
    decreases cs.len(),
{
    if cs.len() > 0 && is_white_space(cs.last()) {
        trim_end(cs.drop_last())
    } else {
        cs
    }
}

/// `cs` without leading and trailing white space (`str::trim`).
pub open spec fn trim(cs: Seq<char>) -> Seq<char> {
    trim_end(trim_start(cs))
}

/// Lines completed after the first `n` characters, and the line being read.
pub open spec fn line_scan(cs: Seq<char>, n: nat) -> (Seq<Seq<char>>, Seq<char>)
    decreases n,
{
    if n == 0 {
        (Seq::empty(), Seq::empty())
    } else {
        let (done, cur) = line_scan(cs, (n - 1) as nat);
        if cs[n - 1] == '\n' {
            (done.push(cur), Seq::empty())
        } else {
            (done, cur.push(cs[n - 1]))
        }
    }
}

/// The lines of a text: the pieces between line feeds, without an empty last piece.
/// (A carriage return before a line feed stays in its line; every use trims lines.)
pub open spec fn lines_of(cs: Seq<char>) -> Seq<Seq<char>> {
    let (done, cur) = line_scan(cs, cs.len());
    if cur.len() > 0 {
        done.push(cur)
    } else {
        done
    }
}

/// The lines of `content`, as characters.
fn split_lines(content: &str) -> (r: Vec<Vec<char>>)
    ensures
        r@.map_values(|l: Vec<char>| l@) == lines_of(content@),
{
    let cs = chars_of(content);
    let mut lines: Vec<Vec<char>> = Vec::new();
    let mut current: Vec<char> = Vec::new();
    let mut i: usize = 0;
    while i < cs.len()
        invariant
            0 <= i <= cs@.len(),
            cs@ == content@,
            (lines@.map_values(|l: Vec<char>| l@), current@) == line_scan(cs@, i as nat),
        decreases cs@.len() - i,
    {
        if cs[i] == '\n' {
            let line = current;
            current = Vec::new();
            assert(lines@.push(line).map_values(|l: Vec<char>| l@) =~= lines@.map_values(
                |l: Vec<char>| l@,
            ).push(line@));
            lines.push(line);
        } else {
            current.push(cs[i]);
        }
        i = i + 1;
    }
    if current.len() > 0 {
        let line = current;
        assert(lines@.push(line).map_values(|l: Vec<char>| l@) =~= lines@.map_values(
            |l: Vec<char>| l@,
        ).push(line@));
        lines.push(line);
    }
    lines
}

/// The characters of `v` without leading and trailing white space.
fn trimmed(v: &Vec<char>) -> (r: String)
    ensures
        r@ == trim(v@),
{
    let n = v.len();
    let mut a: usize = 0;
    assert(v@.subrange(0, n as int) =~= v@);
    while a < n && char_is_white_space(v[a])
        invariant
            0 <= a <= n,
            n == v@.len(),
            trim_start(v@) == trim_start(v@.subrange(a as int, n as int)),
        decreases n - a,
    {
        assert(v@.subrange(a as int, n as int).drop_first() =~= v@.subrange(a as int + 1, n as int));
        a = a + 1;
    }
    assert(trim_start(v@) == v@.subrange(a as int, n as int));
    let mut b: usize = n;
    while b > a && char_is_white_space(v[b - 1])
        invariant
            a <= b <= n,
            n == v@.len(),
            trim(v@) == trim_end(v@.subrange(a as int, b as int)),
        decreases b - a,
    {
        assert(v@.subrange(a as int, b as int).drop_last() =~= v@.subrange(a as int, b as int - 1));
        b = b - 1;
    }
    string_from_range(v, a, b)
}

// ---------------------------------------------------------------------------
// Words and sentences
// ---------------------------------------------------------------------------

/// Words completed after the first `n` characters, and the word being read.
pub open spec fn word_scan(cs: Seq<char>, n: nat) -> (Seq<Seq<char>>, Seq<char>)
    decreases n,
{
    if n == 0 {
        (Seq::empty(), Seq::empty())
    } else {
        let (words, cur) = word_scan(cs, (n - 1) as nat);
        let c = cs[n - 1];
        if is_ascii_letter(c) || c == '\'' {
            (words, cur.push(ascii_lower(c)))
        } else if cur.len() > 0 {
            (words.push(cur), Seq::empty())
        } else {
            (words, cur)
        }
    }
}

/// The words of a text: maximal runs of ASCII letters and apostrophes, lower-cased.
pub open spec fn words_of(cs: Seq<char>) -> Seq<Seq<char>> {
    let (words, cur) = word_scan(cs, cs.len());
    if cur.len() > 0 {
        words.push(cur)
    } else {
        words
    }
}

/// The lower-cased words of `text`.
pub fn extract_words(text: &str) -> (r: Vec<String>)
    ensures
        views(r@) == words_of(text@),
{
    let cs = chars_of(text);
    let mut words: Vec<String> = Vec::new();
    let mut current: Vec<char> = Vec::new();
    let mut i: usize = 0;
    while i < cs.len()
        invariant
            0 <= i <= cs@.len(),
            cs@ == text@,
            (views(words@), current@) == word_scan(cs@, i as nat),
        decreases cs@.len() - i,
    {
        let c = cs[i];
        if char_is_ascii_letter(c) || c == '\'' {
            current.push(char_ascii_lower(c));
        } else if current.len() > 0 {
            let w = string_from_chars(current.as_slice());
            proof {
                lemma_views_push(words@, w);
            }
            words.push(w);
            current = Vec::new();
        }
        i = i + 1;
    }
    if current.len() > 0 {
        let w = string_from_chars(current.as_slice());
        proof {
            lemma_views_push(words@, w);
        }
        words.push(w);
    }
    words
}

/// Number of maximal runs of non-white-space characters among the first `n`.
pub open spec fn run_count(cs: Seq<char>, n: nat) -> nat
    decreases n,
{
    if n == 0 {
        0
    } else {
        let starts = !is_white_space(cs[n - 1]) && (n == 1 || is_white_space(cs[n - 2]));
        run_count(cs, (n - 1) as nat) + if starts {
            1nat
        } else {
            0nat
        }
    }
}

/// Ends with sentence punctuation, or holds more than one white-space separated word.
pub open spec fn is_sentence_like(cs: Seq<char>) -> bool {
    (cs.len() > 0 && (cs.last() == '.' || cs.last() == '?' || cs.last() == '!' || cs.last() == ':'
        || cs.last() == ';')) || run_count(cs, cs.len()) > 1
}

/// Whether `text` ends with `. ? ! : ;` or has more than one white-space separated word.
pub fn looks_like_sentence(text: &str) -> (r: bool)
    ensures
        r == is_sentence_like(text@),
{
    let cs = chars_of(text);
    let n = cs.len();
    if n > 0 {
        let last = cs[n - 1];
        if last == '.' || last == '?' || last == '!' || last == ':' || last == ';' {
            return true;
        }
    }
    let mut count: usize = 0;
    let mut i: usize = 0;
    while i < n
        invariant
            0 <= i <= n,
            n == cs@.len(),
            cs@ == text@,
            count == run_count(cs@, i as nat),
            count <= i,
        decreases n - i,
    {
        if !char_is_white_space(cs[i]) && (i == 0 || char_is_white_space(cs[i - 1])) {
            count = count + 1;
        }
        i = i + 1;
    }
    count > 1
}

// ---------------------------------------------------------------------------
// Markdown
// ---------------------------------------------------------------------------

/// Words and sentences found in a document.
#[derive(Debug, Default, PartialEq, Eq)]
pub struct ParsedCorpusContent {
    pub words: Vec<String>,
    pub sentences: Vec<String>,
}

/// A line that holds content: not blank and not a heading.
pub open spec fn is_content_line(t: Seq<char>) -> bool {
    t.len() > 0 && t[0] != '#'
}

/// Words and sentences of the first `n` lines of a Markdown document.
pub open spec fn markdown_scan(lines: Seq<Seq<char>>, n: nat) -> (Seq<Seq<char>>, Seq<Seq<char>>)
    decreases n,
{
    if n == 0 {
        (Seq::empty(), Seq::empty())
    } else {
        let (words, sentences) = markdown_scan(lines, (n - 1) as nat);
        let t = trim(lines[n - 1]);
        if !is_content_line(t) {
            (words, sentences)
        } else {
            (
                words + words_of(t),
                if is_sentence_like(t) {
                    sentences.push(t)
                } else {
                    sentences
                },
            )
        }
    }
}

/// Words and sentences of a Markdown document: every trimmed line that is neither blank
/// nor a heading contributes its words, and is a sentence when it looks like one.
pub open spec fn markdown_content(cs: Seq<char>) -> (Seq<Seq<char>>, Seq<Seq<char>>) {
    markdown_scan(lines_of(cs), lines_of(cs).len())
}

/// Scanning a text that starts with a line `h` and a line feed: that line comes first,
/// then the lines of the rest.
proof fn lemma_line_scan_after_first_line(h: Seq<char>, d: Seq<char>, k: nat)
    requires
        forall|i: int| 0 <= i < h.len() ==> h[i] != '\n',
        k <= d.len(),
    ensures
        line_scan(h + seq!['\n'] + d, h.len() + 1 + k) == (
            seq![h] + line_scan(d, k).0,
            line_scan(d, k).1,
        ),
    decreases k,
{
    let cs = h + seq!['\n'] + d;
    if k == 0 {
        lemma_line_scan_plain(cs, h, h.len());
        assert(h.take(h.len() as int) =~= h);
        assert(cs[h.len() as int] == '\n');
        assert(Seq::<Seq<char>>::empty().push(h) =~= seq![h] + line_scan(d, 0).0);
    } else {
        lemma_line_scan_after_first_line(h, d, (k - 1) as nat);
        assert(cs[h.len() + 1 + k - 1] == d[k - 1]);
        let (done, cur) = line_scan(d, (k - 1) as nat);
        if d[k - 1] == '\n' {
            assert((seq![h] + done).push(cur) =~= seq![h] + done.push(cur));
        }
    }
}

/// The first `n` characters of `cs`, all within a first line `h`, leave `h.take(n)` being read.
proof fn lemma_line_scan_plain(cs: Seq<char>, h: Seq<char>, n: nat)
    requires
        n <= h.len(),
        h.len() <= cs.len(),
        forall|i: int| 0 <= i < h.len() ==> h[i] != '\n' && cs[i] == h[i],
    ensures
        line_scan(cs, n) == (Seq::<Seq<char>>::empty(), h.take(n as int)),
    decreases n,
{
    if n > 0 {
        lemma_line_scan_plain(cs, h, (n - 1) as nat);
        assert(h.take(n - 1).push(h[n - 1]) =~= h.take(n as int));
    }
}

/// The lines of a text that starts with a line `h` and a line feed.
proof fn lemma_lines_after_first_line(h: Seq<char>, d: Seq<char>)
    requires
        forall|i: int| 0 <= i < h.len() ==> h[i] != '\n',
    ensures
        lines_of(h + seq!['\n'] + d) == seq![h] + lines_of(d),
{
    lemma_line_scan_after_first_line(h, d, d.len());
    let (done, cur) = line_scan(d, d.len());
    assert((h + seq!['\n'] + d).len() == h.len() + 1 + d.len());
    if cur.len() > 0 {
        assert((seq![h] + done).push(cur) =~= seq![h] + done.push(cur));
    }
}

/// Words and sentences of lines after a first line that is blank or a heading.
proof fn lemma_scan_skips_first_line(h: Seq<char>, lines: Seq<Seq<char>>, n: nat)
    requires
        n <= lines.len(),
        trim(h).len() == 0 || trim(h)[0] == '#',
    ensures
        markdown_scan(seq![h] + lines, n + 1) == markdown_scan(lines, n),
    decreases n,
{
    let all = seq![h] + lines;
    if n == 0 {
        assert(all[0] == h);
        assert(!is_content_line(trim(h)));
        assert(markdown_scan(all, 0) == (Seq::<Seq<char>>::empty(), Seq::<Seq<char>>::empty()));
        assert(markdown_scan(all, 1) == markdown_scan(all, 0));
    } else {
        lemma_scan_skips_first_line(h, lines, (n - 1) as nat);
        assert(all[n as int] == lines[n - 1]);
        assert(markdown_scan(all, n) == markdown_scan(lines, (n - 1) as nat));
        let (w, ss) = markdown_scan(all, n);
        let t = trim(lines[n - 1]);
        assert(markdown_scan(all, n + 1) == (if !is_content_line(t) {
            (w, ss)
        } else {
            (w + words_of(t), if is_sentence_like(t) { ss.push(t) } else { ss })
        }));
    }
}

/// A Markdown line whose trimmed text is blank or starts with `#` (a heading) gives
/// neither words nor a sentence: a document that begins with such a line has the words
/// and sentences of the rest of the document.
pub proof fn law_headings_add_nothing(h: Seq<char>, d: Seq<char>)
    requires
        forall|i: int| 0 <= i < h.len() ==> h[i] != '\n',
        trim(h).len() == 0 || trim(h)[0] == '#',
    ensures
        markdown_content(h + seq!['\n'] + d) == markdown_content(d),
{
    lemma_lines_after_first_line(h, d);
    lemma_scan_skips_first_line(h, lines_of(d), lines_of(d).len());
}

fn starts_with_hash(s: &str) -> (r: bool)
    ensures
        r == (s@.len() > 0 && s@[0] == '#'),
{
    let cs = chars_of(s);
    cs.len() > 0 && cs[0] == '#'
}

/// Appends `more` to `out`.
fn append_strings(out: &mut Vec<String>, more: Vec<String>)
    ensures
        views(final(out)@) == views(old(out)@) + views(more@),
{
    let mut more = more;
    let ghost a = out@;
    let ghost b = more@;
    out.append(&mut more);
    assert(views(a + b) =~= views(a) + views(b));
}

/// The words and sentences of a Markdown document.
pub fn parse_markdown_content(content: &str) -> (r: ParsedCorpusContent)
    ensures
        (views(r.words@), views(r.sentences@)) == markdown_content(content@),
{
    let lines = split_lines(content);
    let ghost ls = lines@.map_values(|l: Vec<char>| l@);
    let mut words: Vec<String> = Vec::new();
    let mut sentences: Vec<String> = Vec::new();
    let mut i: usize = 0;
    while i < lines.len()
        invariant
            0 <= i <= lines@.len(),
            ls == lines@.map_values(|l: Vec<char>| l@),
            ls == lines_of(content@),
            (views(words@), views(sentences@)) == markdown_scan(ls, i as nat),
        decreases lines@.len() - i,
    {
        let t = trimmed(&lines[i]);
        assert(t@ == trim(ls[i as int]));
        if t.as_str().is_empty() || starts_with_hash(t.as_str()) {
        } else {
            if looks_like_sentence(t.as_str()) {
                let s = t.clone();
                proof {
                    lemma_views_push(sentences@, s);
                }
                sentences.push(s);
            }
            let found = extract_words(t.as_str());
            append_strings(&mut words, found);
        }
        i = i + 1;
    }
    ParsedCorpusContent { words, sentences }
}

/// Paragraphs completed after the first `n` lines, and the lines of the paragraph being read.
pub open spec fn paragraph_scan(lines: Seq<Seq<char>>, n: nat) -> (Seq<Seq<char>>, Seq<Seq<char>>)
    decreases n,
{
    if n == 0 {
        (Seq::empty(), Seq::empty())
    } else {
        let (paras, cur) = paragraph_scan(lines, (n - 1) as nat);
        let t = trim(lines[n - 1]);
        if !is_content_line(t) {
            if cur.len() > 0 {
                (paras.push(join(cur, " "@)), Seq::empty())
            } else {
                (paras, cur)
            }
        } else {
            (paras, cur.push(t))
        }
    }
}

/// Paragraphs of a Markdown document: runs of trimmed content lines joined by spaces,
/// ended by blank lines and headings.
pub open spec fn markdown_paragraphs(cs: Seq<char>) -> Seq<Seq<char>> {
    let (paras, cur) = paragraph_scan(lines_of(cs), lines_of(cs).len());
    if cur.len() > 0 {
        paras.push(join(cur, " "@))
    } else {
        paras
    }
}

/// The strings of `parts` joined by single spaces.
fn join_with_spaces(parts: &Vec<String>) -> (r: String)
    ensures
        r@ == join(views(parts@), " "@),
{
    let ghost ps = views(parts@);
    let mut out = String::new();
    let mut i: usize = 0;
    while i < parts.len()
        invariant
            0 <= i <= parts@.len(),
            ps == views(parts@),
            out@ == join(ps.take(i as int), " "@),
        decreases parts@.len() - i,
    {
        proof {
            crate::form::lemma_join_push(ps.take(i as int), " "@, ps[i as int]);
            assert(ps.take(i as int).push(ps[i as int]) =~= ps.take(i as int + 1));
        }
        if i > 0 {
            push_str(&mut out, " ");
        }
        push_str(&mut out, parts[i].as_str());
        i = i + 1;
    }
    assert(ps.take(parts@.len() as int) =~= ps);
    out
}

/// The paragraphs of a Markdown document.
pub fn parse_markdown_paragraphs(content: &str) -> (r: Vec<String>)
    ensures
        views(r@) == markdown_paragraphs(content@),
{
    let lines = split_lines(content);
    let ghost ls = lines@.map_values(|l: Vec<char>| l@);
    let mut paragraphs: Vec<String> = Vec::new();
    let mut current: Vec<String> = Vec::new();
    let mut i: usize = 0;
    while i < lines.len()
        invariant
            0 <= i <= lines@.len(),
            ls == lines@.map_values(|l: Vec<char>| l@),
            ls == lines_of(content@),
            (views(paragraphs@), views(current@)) == paragraph_scan(ls, i as nat),
        decreases lines@.len() - i,
    {
        let t = trimmed(&lines[i]);
        assert(t@ == trim(ls[i as int]));
        if t.as_str().is_empty() || starts_with_hash(t.as_str()) {
            if current.len() > 0 {
                let p = join_with_spaces(&current);
                proof {
                    lemma_views_push(paragraphs@, p);
                }
                paragraphs.push(p);
                current = Vec::new();
                assert(views(current@) =~= Seq::<Seq<char>>::empty());
            }
        } else {
            proof {
                lemma_views_push(current@, t);
            }
            current.push(t);
        }
        i = i + 1;
    }
    if current.len() > 0 {
        let p = join_with_spaces(&current);
        proof {
            lemma_views_push(paragraphs@, p);
        }
        paragraphs.push(p);
    }
    paragraphs
}

// ---------------------------------------------------------------------------
// JSON string values
// ---------------------------------------------------------------------------

/// The scanner's state after a prefix of a JSON text.
pub struct JsonScan {
    pub values: Seq<Seq<char>>,
    pub in_string: bool,
    pub escaped: bool,
    pub current: Seq<char>,
}

/// The first character at or after `from` that is not white space.
pub open spec fn next_significant(cs: Seq<char>, from: int) -> Option<char>
    decreases cs.len() - from,
{
    if from < 0 || from >= cs.len() {
        None
    } else if is_white_space(cs[from]) {
        next_significant(cs, from + 1)
    } else {
        Some(cs[from])
    }
}

/// The character an escape sequence stands for.
pub open spec fn unescape(c: char) -> char {
    if c == 'n' {
        '\n'
    } else if c == 't' {
        '\t'
    } else {
        c
    }
}

/// The scanner's state after the first `n` characters: string values are collected
/// unless the next significant character after the closing quote is a colon (a key).
pub open spec fn json_scan(cs: Seq<char>, n: nat) -> JsonScan
    decreases n,
{
    if n == 0 {
        JsonScan { values: Seq::empty(), in_string: false, escaped: false, current: Seq::empty() }
    } else {
        let st = json_scan(cs, (n - 1) as nat);
        let c = cs[n - 1];
        if !st.in_string {
            if c == '"' {
                JsonScan { in_string: true, current: Seq::empty(), ..st }
            } else {
                st
            }
        } else if st.escaped {
            JsonScan { current: st.current.push(unescape(c)), escaped: false, ..st }
        } else if c == '\\' {
            JsonScan { escaped: true, ..st }
        } else if c == '"' {
            JsonScan {
                in_string: false,
                values: if next_significant(cs, n as int) == Some(':') {
                    st.values
                } else {
                    st.values.push(st.current)
                },
                ..st
            }
        } else {
            JsonScan { current: st.current.push(c), ..st }
        }
    }
}

/// The string values of a JSON text (keys excluded), or `None` when a string is unterminated.
pub open spec fn json_values(cs: Seq<char>) -> Option<Seq<Seq<char>>> {
    let st = json_scan(cs, cs.len());
    if st.in_string {
        None
    } else {
        Some(st.values)
    }
}

fn next_significant_char(cs: &Vec<char>, from: usize) -> (r: Option<char>)
    requires
        from <= cs@.len(),
    ensures
        r == next_significant(cs@, from as int),
{
    let mut k = from;
    while k < cs.len()
        invariant
            from <= k <= cs@.len(),
            next_significant(cs@, from as int) == next_significant(cs@, k as int),
        decreases cs@.len() - k,
    {
        if !char_is_white_space(cs[k]) {
            return Some(cs[k]);
        }
        k = k + 1;
    }
    None
}

/// The string values of a JSON text, leaving out object keys; an unterminated string
/// is an error.
pub fn extract_json_string_values(content: &str) -> (r: Result<Vec<String>, String>)
    ensures
        match r {
            Ok(values) => json_values(content@) == Some(views(values@)),
            Err(e) => json_values(content@) is None && e@ == "invalid json: unterminated string"@,
        },
{
    let cs = chars_of(content);
    let mut values: Vec<String> = Vec::new();
    let mut current: Vec<char> = Vec::new();
    let mut in_string = false;
    let mut escaped = false;
    let mut i: usize = 0;
    assert(views(values@) =~= Seq::<Seq<char>>::empty());
    assert(current@ =~= Seq::<char>::empty());
    while i < cs.len()
        invariant
            0 <= i <= cs@.len(),
            cs@ == content@,
            json_scan(cs@, i as nat) == (JsonScan {
                values: views(values@),
                in_string,
                escaped,
                current: current@,
            }),
        decreases cs@.len() - i,
    {
        let c = cs[i];
        if !in_string {
            if c == '"' {
                in_string = true;
                current = Vec::new();
            }
        } else if escaped {
            let u = if c == 'n' {
                '\n'
            } else if c == 't' {
                '\t'
            } else {
                c
            };
            current.push(u);
            escaped = false;
        } else if c == '\\' {
            escaped = true;
        } else if c == '"' {
            in_string = false;
            let next = next_significant_char(&cs, i + 1);
            let is_key = match next {
                Some(':') => true,
                _ => false,
            };
            if !is_key {
                let v = string_from_chars(current.as_slice());
                proof {
                    lemma_views_push(values@, v);
                }
                values.push(v);
            }
        } else {
            current.push(c);
        }
        i = i + 1;
    }
    if in_string {
        return Err(owned("invalid json: unterminated string"));
    }
    Ok(values)
}

/// Words and sentences of the first `n` values.
pub open spec fn values_scan(values: Seq<Seq<char>>, n: nat) -> (Seq<Seq<char>>, Seq<Seq<char>>)
    decreases n,
{
    if n == 0 {
        (Seq::empty(), Seq::empty())
    } else {
        let (words, sentences) = values_scan(values, (n - 1) as nat);
        let v = values[n - 1];
        (
            words + words_of(v),
            if is_sentence_like(v) {
                sentences.push(v)
            } else {
                sentences
            },
        )
    }
}

/// Words and sentences of a JSON document: every string value contributes its words,
/// and is a sentence when it looks like one; `None` when a string is unterminated.
pub open spec fn json_content(cs: Seq<char>) -> Option<(Seq<Seq<char>>, Seq<Seq<char>>)> {
    match json_values(cs) {
        Some(values) => Some(values_scan(values, values.len())),
        None => None,
    }
}

/// The words and sentences of a JSON document.
pub fn parse_json_content(content: &str) -> (r: Result<ParsedCorpusContent, String>)
    ensures
        match r {
            Ok(parsed) => json_content(content@) == Some(
                (views(parsed.words@), views(parsed.sentences@)),
            ),
            Err(e) => json_content(content@) is None && e@ == "invalid json: unterminated string"@,
        },
{
    let strings = match extract_json_string_values(content) {
        Ok(v) => v,
        Err(e) => return Err(e),
    };
    let ghost vs = views(strings@);
    let mut words: Vec<String> = Vec::new();
    let mut sentences: Vec<String> = Vec::new();
    let mut i: usize = 0;
    while i < strings.len()
        invariant
            0 <= i <= strings@.len(),
            vs == views(strings@),
            (views(words@), views(sentences@)) == values_scan(vs, i as nat),
        decreases strings@.len() - i,
    {
        let value = &strings[i];
        if looks_like_sentence(value.as_str()) {
            let s = value.clone();
            proof {
                lemma_views_push(sentences@, s);
            }
            sentences.push(s);
        }
        let found = extract_words(value.as_str());
        append_strings(&mut words, found);
        i = i + 1;
    }
    Ok(ParsedCorpusContent { words, sentences })
}

// ---------------------------------------------------------------------------
// Corpus reports
// ---------------------------------------------------------------------------

/// The order in which `<[PathBuf]>::sort` leaves a list of paths.
pub uninterp spec fn sorted_paths(paths: Seq<PathBuf>) -> Seq<PathBuf>;

/// What `Vec::<PathBuf>::dedup` leaves of a list of paths.
pub uninterp spec fn deduped_paths(paths: Seq<PathBuf>) -> Seq<PathBuf>;

/// Sorts paths with `<[PathBuf]>::sort`, which orders paths by their components. The
/// contract claims that the result is the named sorted order, and a permutation of the
/// input; the component order itself is not stated.
#[verifier::external_body]
fn sort_paths(paths: &mut Vec<PathBuf>)
    ensures
        final(paths)@ == sorted_paths(old(paths)@),
        final(paths)@.to_multiset() == old(paths)@.to_multiset(),
{
    paths.sort();
}

/// Removes consecutive equal paths with `Vec::dedup`. The contract claims that the result
/// is the named one, no longer than the input, made of input paths, and that a non-empty
/// input keeps its first path; path equality (by components) is not stated.
#[verifier::external_body]
fn dedup_paths(paths: &mut Vec<PathBuf>)
    ensures
        final(paths)@ == deduped_paths(old(paths)@),
        final(paths)@.len() <= old(paths)@.len(),
        forall|i: int| 0 <= i < final(paths)@.len() ==> old(paths)@.contains(#[trigger] final(paths)@[i]),
        old(paths)@.len() > 0 ==> final(paths)@.len() > 0 && final(paths)@[0] == old(paths)@[0],
{
    paths.dedup();
}

/// Inserts every string of `items` into a sorted list of distinct strings.
fn insert_all(list: &mut Vec<String>, items: &Vec<String>)
    requires
        strictly_sorted(views(old(list)@)),
    ensures
        strictly_sorted(views(final(list)@)),
        views(final(list)@).to_set() == views(old(list)@).to_set() + views(items@).to_set(),
{
    let ghost start = views(list@).to_set();
    let mut i: usize = 0;
    while i < items.len()
        invariant
            0 <= i <= items@.len(),
            strictly_sorted(views(list@)),
            views(list@).to_set() == start + views(items@).take(i as int).to_set(),
        decreases items@.len() - i,
    {
        insert_sorted_unique(list, items[i].clone());
        proof {
            let t = views(items@).take(i as int);
            assert(views(items@).take(i as int + 1) =~= t.push(views(items@)[i as int]));
            crate::text::lemma_to_set_push(t, views(items@)[i as int]);
            assert(views(list@).to_set() =~= start + views(items@).take(i as int + 1).to_set());
        }
        i = i + 1;
    }
    assert(views(items@).take(items@.len() as int) =~= views(items@));
}

/// The sorted list of the distinct strings of `a` and `b`.
fn sorted_union(a: &Vec<String>, b: &Vec<String>) -> (r: Vec<String>)
    ensures
        strictly_sorted(views(r@)),
        views(r@).to_set() == views(a@).to_set() + views(b@).to_set(),
        views(r@) == merged_strings(a@, b@),
{
    let mut out: Vec<String> = Vec::new();
    assert(views(out@).to_set() =~= Set::<Seq<char>>::empty());
    insert_all(&mut out, a);
    insert_all(&mut out, b);
    assert(views(out@).to_set() =~= views(a@).to_set() + views(b@).to_set());
    proof {
        assert(views(a@ + b@) =~= views(a@) + views(b@));
        lemma_to_set_add(views(a@), views(b@));
        lemma_sorted_of_set(views(out@));
    }
    out
}

/// The distinct strings of two lists, in sorted order: what a merge keeps of them.
pub open spec fn merged_strings(a: Seq<String>, b: Seq<String>) -> Seq<Seq<char>> {
    sorted_distinct(views(a + b))
}

/// At most the first `n` items of `s`.
pub open spec fn capped<A>(s: Seq<A>, n: usize) -> Seq<A> {
    if s.len() > n {
        s.take(n as int)
    } else {
        s
    }
}

/// What a corpus load found: the files read, the distinct words and sentences in sorted
/// order, and the public sources used.
#[derive(Clone, Debug, Default, PartialEq, Eq)]
pub struct CorpusLoadReport {
    pub files: Vec<PathBuf>,
    pub glosses: Vec<String>,
    pub sentences: Vec<String>,
    pub api_sources: Vec<String>,
}

impl CorpusLoadReport {
    /// Combines two reports: the files of both (sorted, consecutive duplicates removed),
    /// and the distinct glosses, sentences and sources of both, each in sorted order.
    pub fn merge(self, other: Self) -> (r: Self)
        ensures
            r.files@ == deduped_paths(sorted_paths(self.files@ + other.files@)),
            forall|i: int|
                0 <= i < r.files@.len() ==> self.files@.contains(#[trigger] r.files@[i])
                    || other.files@.contains(r.files@[i]),
            r.files@.len() <= self.files@.len() + other.files@.len(),
            r.files@.len() > 0 <==> self.files@.len() + other.files@.len() > 0,
            views(r.glosses@) == merged_strings(self.glosses@, other.glosses@),
            views(r.sentences@) == merged_strings(self.sentences@, other.sentences@),
            views(r.api_sources@) == merged_strings(self.api_sources@, other.api_sources@),
            strictly_sorted(views(r.glosses@)),
            views(r.glosses@).to_set() == views(self.glosses@).to_set() + views(other.glosses@).to_set(),
            strictly_sorted(views(r.sentences@)),
            views(r.sentences@).to_set() == views(self.sentences@).to_set() + views(
                other.sentences@,
            ).to_set(),
            strictly_sorted(views(r.api_sources@)),
            views(r.api_sources@).to_set() == views(self.api_sources@).to_set() + views(
                other.api_sources@,
            ).to_set(),
    {
        let mut files = self.files;
        let mut more_files = other.files;
        files.append(&mut more_files);
        let ghost joined = files@;
        sort_paths(&mut files);
        let ghost sorted = files@;
        proof {
            broadcast use vstd::seq_lib::group_to_multiset_ensures;

            assert(sorted.len() == sorted.to_multiset().len());
            assert(joined.len() == joined.to_multiset().len());
        }
        dedup_paths(&mut files);
        proof {
            broadcast use vstd::seq_lib::group_to_multiset_ensures;

            assert forall|i: int| 0 <= i < files@.len() implies self.files@.contains(
                #[trigger] files@[i],
            ) || other.files@.contains(files@[i]) by {
                let f = files@[i];
                assert(sorted.contains(f));
                assert(sorted.to_multiset().count(f) > 0);
                assert(joined.contains(f));
                let k = choose|k: int| 0 <= k < joined.len() && joined[k] == f;
                if k < self.files@.len() {
                    assert(self.files@[k] == f);
                } else {
                    assert(other.files@[k - self.files@.len()] == f);
                }
            }
        }
        let glosses = sorted_union(&self.glosses, &other.glosses);
        let sentences = sorted_union(&self.sentences, &other.sentences);
        let api_sources = sorted_union(&self.api_sources, &other.api_sources);
        CorpusLoadReport { files, glosses, sentences, api_sources }
    }

    /// Keeps at most `max_glosses` glosses and `max_sentences` sentences (the first ones).
    pub fn limit(self, max_glosses: usize, max_sentences: usize) -> (r: Self)
        ensures
            r.files@ == self.files@,
            r.api_sources@ == self.api_sources@,
            r.glosses@ == capped(self.glosses@, max_glosses),
            r.sentences@ == capped(self.sentences@, max_sentences),
    {
        let mut report = self;
        if report.glosses.len() > max_glosses {
            report.glosses.truncate(max_glosses);
        }
        if report.sentences.len() > max_sentences {
            report.sentences.truncate(max_sentences);
        }
        report
    }
}

/// Accumulates the distinct words and sentences of corpus documents, one at a time.
#[derive(Debug)]
pub struct CorpusCollector {
    words: Vec<String>,
    sentences: Vec<String>,
}

/// The abstract content of a collector: the words and sentences seen so far.
pub struct CollectorModel {
    pub words: Set<Seq<char>>,
    pub sentences: Set<Seq<char>>,
}

impl View for CorpusCollector {
    type V = CollectorModel;

    closed spec fn view(&self) -> CollectorModel {
        CollectorModel {
            words: views(self.words@).to_set(),
            sentences: views(self.sentences@).to_set(),
        }
    }
}

impl CorpusCollector {
    #[verifier::type_invariant]
    spec fn sorted(&self) -> bool {
        strictly_sorted(views(self.words@)) && strictly_sorted(views(self.sentences@))
    }

    /// A collector that has seen nothing.
    pub fn new() -> (r: Self)
        ensures
            r@.words == Set::<Seq<char>>::empty(),
            r@.sentences == Set::<Seq<char>>::empty(),
    {
        let r = CorpusCollector { words: Vec::new(), sentences: Vec::new() };
        assert(views(r.words@).to_set() =~= Set::<Seq<char>>::empty());
        assert(views(r.sentences@).to_set() =~= Set::<Seq<char>>::empty());
        r
    }

    fn absorb(&mut self, parsed: ParsedCorpusContent)
        ensures
            final(self)@.words == old(self)@.words + views(parsed.words@).to_set(),
            final(self)@.sentences == old(self)@.sentences + views(parsed.sentences@).to_set(),
    {
        proof {
            use_type_invariant(&*self);
        }
        let mut words: Vec<String> = Vec::new();
        std::mem::swap(&mut words, &mut self.words);
        insert_all(&mut words, &parsed.words);
        self.words = words;
        let mut sentences: Vec<String> = Vec::new();
        std::mem::swap(&mut sentences, &mut self.sentences);
        insert_all(&mut sentences, &parsed.sentences);
        self.sentences = sentences;
    }

    /// Adds the words and sentences of a Markdown document.
    pub fn add_markdown(&mut self, content: &str)
        ensures
            final(self)@.words == old(self)@.words + markdown_content(content@).0.to_set(),
            final(self)@.sentences == old(self)@.sentences + markdown_content(content@).1.to_set(),
    {
        let parsed = parse_markdown_content(content);
        self.absorb(parsed);
    }

    /// Adds the words and sentences of a JSON document; an unterminated string is an
    /// error and adds nothing.
    pub fn add_json(&mut self, content: &str) -> (r: Result<(), String>)
        ensures
            r is Ok <==> json_content(content@) is Some,
            r matches Err(e) ==> e@ == "invalid json: unterminated string"@ && final(self)@
                == old(self)@,
            json_content(content@) matches Some((w, s)) ==> final(self)@.words == old(self)@.words
                + w.to_set() && final(self)@.sentences == old(self)@.sentences + s.to_set(),
    {
        match parse_json_content(content) {
            Ok(parsed) => {
                self.absorb(parsed);
                Ok(())
            },
            Err(e) => Err(e),
        }
    }

    /// The report for the documents read from `files`: the files in sorted order, the
    /// collected words and sentences, distinct and sorted, and no public sources.
    pub fn finish(self, files: Vec<PathBuf>) -> (r: CorpusLoadReport)
        ensures
            r.files@ == sorted_paths(files@),
            r.files@.to_multiset() == files@.to_multiset(),
            strictly_sorted(views(r.glosses@)),
            views(r.glosses@).to_set() == self@.words,
            strictly_sorted(views(r.sentences@)),
            views(r.sentences@).to_set() == self@.sentences,
            r.api_sources@.len() == 0,
    {
        proof {
            use_type_invariant(&self);
        }
        let CorpusCollector { words, sentences } = self;
        let mut files = files;
        sort_paths(&mut files);
        CorpusLoadReport { files, glosses: words, sentences, api_sources: Vec::new() }
    }

    /// The report for a directory whose corpus files are `files`, or, when there are
    /// none, the error naming the directory.
    pub fn finish_directory(self, files: Vec<PathBuf>, directory: &str) -> (r: Result<
        CorpusLoadReport,
        String,
    >)
        ensures
            r is Err <==> files@.len() == 0,
            r matches Err(e) ==> e@ == "no supported .md or .json corpus files were found in "@
                + directory@,
            r matches Ok(report) ==> report.files@ == sorted_paths(files@) && strictly_sorted(
                views(report.glosses@),
            ) && views(report.glosses@).to_set() == self@.words && strictly_sorted(
                views(report.sentences@),
            ) && views(report.sentences@).to_set() == self@.sentences
                && report.api_sources@.len() == 0,
    {
        if files.len() == 0 {
            let mut message = owned("no supported .md or .json corpus files were found in ");
            push_str(&mut message, directory);
            return Err(message);
        }
        Ok(self.finish(files))
    }
}

/// Merging does not depend on the order of the two reports: the glosses, sentences and
/// sources kept are the same either way.
pub proof fn law_merge_order_free(a: Seq<String>, b: Seq<String>)
    ensures
        merged_strings(a, b) == merged_strings(b, a),
{
    assert(views(a + b) =~= views(a) + views(b));
    assert(views(b + a) =~= views(b) + views(a));
    lemma_to_set_add(views(a), views(b));
    lemma_to_set_add(views(b), views(a));
    assert(views(a + b).to_set() =~= views(b + a).to_set());
}

/// Merging a report with itself, or with an empty report, leaves a report whose lists are
/// already distinct and sorted (as every merged report's are) unchanged.
pub proof fn law_merge_idempotent(a: Seq<String>)
    requires
        strictly_sorted(views(a)),
    ensures
        merged_strings(a, a) == views(a),
        merged_strings(a, Seq::empty()) == views(a),
        merged_strings(Seq::empty(), a) == views(a),
{
    assert(views(a + a) =~= views(a) + views(a));
    lemma_to_set_add(views(a), views(a));
    assert(views(a + a).to_set() =~= views(a).to_set());
    assert(a + Seq::<String>::empty() =~= a);
    assert(Seq::<String>::empty() + a =~= a);
    lemma_sorted_of_set(views(a));
}

/// Merging is associative: merging three reports in either grouping keeps the same
/// distinct strings in the same order.
pub proof fn law_merge_associative(a: Seq<Seq<char>>, b: Seq<Seq<char>>, c: Seq<Seq<char>>)
    ensures
        sorted_distinct(sorted_distinct(a + b) + c) == sorted_distinct(a + sorted_distinct(b + c)),
{
    let ab = sorted_distinct(a + b);
    let bc = sorted_distinct(b + c);
    lemma_sorted_distinct_set(a + b);
    lemma_sorted_distinct_set(b + c);
    lemma_to_set_add(a, b);
    lemma_to_set_add(b, c);
    lemma_to_set_add(ab, c);
    lemma_to_set_add(a, bc);
    assert((ab + c).to_set() =~= (a + bc).to_set());
}

/// The sorted distinct strings of `s` have the same set as `s`.
pub proof fn lemma_sorted_distinct_set(s: Seq<Seq<char>>)
    ensures
        strictly_sorted(sorted_distinct(s)),
        sorted_distinct(s).to_set() == s.to_set(),
{
    let t = sorted_distinct_witness(s);
    assert(strictly_sorted(t) && t.to_set() == s.to_set());
}

/// A sorted list of the distinct elements of `s` exists.
proof fn sorted_distinct_witness(s: Seq<Seq<char>>) -> (t: Seq<Seq<char>>)
    ensures
        strictly_sorted(t),
        t.to_set() == s.to_set(),
    decreases s.len(),
{
    if s.len() == 0 {
        assert(s.to_set() =~= Set::<Seq<char>>::empty());
        Seq::empty()
    } else {
        let t0 = sorted_distinct_witness(s.drop_last());
        let t = sorted_insert(t0, s.last());
        assert(s.drop_last().push(s.last()) =~= s);
        crate::text::lemma_to_set_push(s.drop_last(), s.last());
        t
    }
}

/// Inserting a string into a sorted list of distinct strings, at its place.
proof fn sorted_insert(t: Seq<Seq<char>>, x: Seq<char>) -> (u: Seq<Seq<char>>)
    requires
        strictly_sorted(t),
    ensures
        strictly_sorted(u),
        u.to_set() == t.to_set().insert(x),
    decreases t.len(),
{
    if t.len() == 0 {
        assert(seq![x].to_set() =~= Set::<Seq<char>>::empty().insert(x)) by {
            assert(seq![x][0] == x);
        }
        assert(t.to_set() =~= Set::<Seq<char>>::empty());
        seq![x]
    } else {
        crate::text::lemma_seq_lt_total(x, t[0]);
        if x == t[0] {
            assert(t.to_set().contains(t[0]));
            assert(t.to_set().insert(x) =~= t.to_set());
            t
        } else if crate::text::seq_lt(x, t[0]) {
            let u = seq![x] + t;
            assert forall|i: int, j: int| 0 <= i < j < u.len() implies crate::text::seq_lt(#[trigger] u[i], #[trigger] u[j]) by {
                if i == 0 {
                    if j > 1 {
                        crate::text::lemma_seq_lt_transitive(x, t[0], t[j - 1]);
                    }
                } else {
                    assert(u[i] == t[i - 1] && u[j] == t[j - 1]);
                }
            }
            lemma_to_set_add(seq![x], t);
            assert(seq![x].to_set() =~= Set::<Seq<char>>::empty().insert(x)) by {
                assert(seq![x][0] == x);
            }
            assert(u.to_set() =~= t.to_set().insert(x));
            u
        } else {
            let rest = t.drop_first();
            assert forall|i: int, j: int| 0 <= i < j < rest.len() implies crate::text::seq_lt(#[trigger] rest[i], #[trigger] rest[j]) by {
                assert(rest[i] == t[i + 1] && rest[j] == t[j + 1]);
            }
            let r = sorted_insert(rest, x);
            let u = seq![t[0]] + r;
            assert forall|k: int| 0 <= k < r.len() implies crate::text::seq_lt(t[0], #[trigger] r[k]) by {
                assert(r.to_set().contains(r[k]));
                if r[k] != x {
                    assert(rest.to_set().contains(r[k]));
                    let m = choose|m: int| 0 <= m < rest.len() && rest[m] == r[k];
                    assert(t[m + 1] == r[k]);
                }
            }
            assert forall|i: int, j: int| 0 <= i < j < u.len() implies crate::text::seq_lt(#[trigger] u[i], #[trigger] u[j]) by {
                if i == 0 {
                    assert(u[j] == r[j - 1]);
                } else {
                    assert(u[i] == r[i - 1] && u[j] == r[j - 1]);
                }
            }
            lemma_to_set_add(seq![t[0]], r);
            assert(seq![t[0]].to_set() =~= Set::<Seq<char>>::empty().insert(t[0])) by {
                assert(seq![t[0]][0] == t[0]);
            }
            assert(t =~= seq![t[0]] + rest);
            lemma_to_set_add(seq![t[0]], rest);
            assert(u.to_set() =~= t.to_set().insert(x));
            u
        }
    }
}

/// Capping a list twice keeps as much as capping it once at the smaller bound.
pub proof fn law_limit_composes<A>(s: Seq<A>, n: usize, m: usize)
    ensures
        capped(capped(s, n), m) == capped(s, if n < m { n } else { m }),
        capped(s, n).len() <= n,
        capped(s, n) == s.take(capped(s, n).len() as int),
{
    assert(s.take(s.len() as int) =~= s);
    if s.len() > n && n > m {
        assert(s.take(n as int).take(m as int) =~= s.take(m as int));
    }
}

} // verus!
