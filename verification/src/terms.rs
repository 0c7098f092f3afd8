//! The terms of prompts and searches: words of ASCII letters, digits and path characters, and
//! runs of CJK ideographs, counted per term.
use crate::chars::{chars_of, copy_range, string_from_chars};
use crate::counts::LabelCounts;
use crate::timeline::count_in;
use vstd::prelude::*;

verus! {

/// Whether a character belongs to an ASCII term: an ASCII letter or digit, or one of
/// `_ - . / : \`.
pub open spec fn ascii_term_char(c: char) -> bool {
    ('a' <= c && c <= 'z') || ('A' <= c && c <= 'Z') || ('0' <= c && c <= '9') || c == '_' || c == '-' || c == '.'
        || c == '/' || c == ':' || c == '\\'
}

/// Whether a character belongs to an ASCII term.
pub fn is_ascii_term_char(c: char) -> (r: bool)
    ensures
        r == ascii_term_char(c),
{
    ('a' <= c && c <= 'z') || ('A' <= c && c <= 'Z') || ('0' <= c && c <= '9') || c == '_' || c == '-' || c == '.'
        || c == '/' || c == ':' || c == '\\'
}

/// Whether a character is a CJK ideograph: the unified block, extension A, B or C.
pub open spec fn cjk_char(c: char) -> bool {
    let v = c as u32;
    (0x4E00 <= v && v <= 0x9FFF) || (0x3400 <= v && v <= 0x4DBF) || (0x20000 <= v && v <= 0x2A6DF) || (0x2A700 <= v
        && v <= 0x2B73F)
}

/// Whether a character is a CJK ideograph.
pub fn is_cjk(c: char) -> (r: bool)
    ensures
        r == cjk_char(c),
{
    let v = c as u32;
    (0x4E00 <= v && v <= 0x9FFF) || (0x3400 <= v && v <= 0x4DBF) || (0x20000 <= v && v <= 0x2A6DF) || (0x2A700 <= v
        && v <= 0x2B73F)
}

/// Whether a character is trimmed off the ends of an ASCII term.
pub open spec fn dash_or_underscore(c: char) -> bool {
    c == '-' || c == '_'
}

/// A run of ASCII term characters without the dashes and underscores at its ends.
pub open spec fn strip_dashes(s: Seq<char>) -> Seq<char>
    decreases s.len(),
{
    if s.len() > 0 && dash_or_underscore(s[0]) {
        strip_dashes(s.drop_first())
    } else if s.len() > 0 && dash_or_underscore(s.last()) {
        strip_dashes(s.drop_last())
    } else {
        s
    }
}

/// The term of a run of ASCII term characters: the run without the dashes and underscores at
/// its ends, when at least two characters are left.
pub open spec fn ascii_tokens(run: Seq<char>) -> Seq<Seq<char>> {
    let t = strip_dashes(run);
    if t.len() >= 2 {
        seq![t]
    } else {
        Seq::empty()
    }
}

/// The terms of a run of CJK ideographs: none for a single one, the run itself when it has up
/// to four, else each pair of neighbours.
pub open spec fn cjk_tokens(run: Seq<char>) -> Seq<Seq<char>> {
    if run.len() < 2 {
        Seq::empty()
    } else if run.len() <= 4 {
        seq![run]
    } else {
        Seq::new((run.len() - 1) as nat, |i: int| run.subrange(i, i + 2))
    }
}

/// The terms found before the end of `s`, and the ASCII and CJK runs that are still open.
pub open spec fn term_state(s: Seq<char>) -> (Seq<Seq<char>>, Seq<char>, Seq<char>)
    decreases s.len(),
{
    if s.len() == 0 {
        (Seq::empty(), Seq::empty(), Seq::empty())
    } else {
        let (found, ascii, cjk) = term_state(s.drop_last());
        let c = s.last();
        if ascii_term_char(c) {
            (found + cjk_tokens(cjk), ascii.push(c), Seq::empty())
        } else if cjk_char(c) {
            (found + ascii_tokens(ascii), Seq::empty(), cjk.push(c))
        } else {
            (found + ascii_tokens(ascii) + cjk_tokens(cjk), Seq::empty(), Seq::empty())
        }
    }
}

/// The terms of a text, in order.
pub open spec fn prompt_terms(s: Seq<char>) -> Seq<Seq<char>> {
    let (found, ascii, cjk) = term_state(s);
    found + ascii_tokens(ascii) + cjk_tokens(cjk)
}

/// The counts after each of `terms` was counted once more.
pub open spec fn counted(m: Map<Seq<char>, i64>, terms: Seq<Seq<char>>) -> Map<Seq<char>, i64>
    decreases terms.len(),
{
    if terms.len() == 0 {
        m
    } else {
        let before = counted(m, terms.drop_last());
        before.insert(terms.last(), (count_in(before, terms.last()) + 1) as i64)
    }
}

/// Whether every count in `m` is at most `b`.
pub open spec fn bounded(m: Map<Seq<char>, i64>, b: int) -> bool {
    forall|k: Seq<char>| m.contains_key(k) ==> m[k] <= b
}

/// Counting two lists of terms is counting the first, then the second.
pub proof fn lemma_counted_append(m: Map<Seq<char>, i64>, a: Seq<Seq<char>>, b: Seq<Seq<char>>)
    ensures
        counted(m, a + b) == counted(counted(m, a), b),
    decreases b.len(),
{
    if b.len() == 0 {
        assert(a + b == a);
    } else {
        assert((a + b).drop_last() == a + b.drop_last());
        lemma_counted_append(m, a, b.drop_last());
    }
}

proof fn lemma_run_tokens_short(run: Seq<char>)
    ensures
        ascii_tokens(run).len() <= run.len(),
        cjk_tokens(run).len() <= run.len(),
{
    lemma_strip_dashes_shorter(run);
}

proof fn lemma_strip_dashes_shorter(s: Seq<char>)
    ensures
        strip_dashes(s).len() <= s.len(),
    decreases s.len(),
{
    if s.len() > 0 && dash_or_underscore(s[0]) {
        lemma_strip_dashes_shorter(s.drop_first());
    } else if s.len() > 0 && dash_or_underscore(s.last()) {
        lemma_strip_dashes_shorter(s.drop_last());
    }
}

proof fn lemma_term_state_size(s: Seq<char>)
    ensures
        term_state(s).0.len() + term_state(s).1.len() + term_state(s).2.len() <= s.len(),
    decreases s.len(),
{
    if s.len() > 0 {
        lemma_term_state_size(s.drop_last());
        let (_, ascii, cjk) = term_state(s.drop_last());
        lemma_run_tokens_short(ascii);
        lemma_run_tokens_short(cjk);
    }
}

/// A text has at most as many terms as characters.
pub proof fn lemma_prompt_terms_size(s: Seq<char>)
    ensures
        prompt_terms(s).len() <= s.len(),
{
    lemma_term_state_size(s);
    let (_, ascii, cjk) = term_state(s);
    lemma_run_tokens_short(ascii);
    lemma_run_tokens_short(cjk);
}

fn ascii_token_list(run: &Vec<char>) -> (r: Vec<String>)
    ensures
        r@.map_values(|t: String| t@) == ascii_tokens(run@),
{
    let mut a: usize = 0;
    let mut b: usize = run.len();
    assert(run@.subrange(0, run@.len() as int) == run@);
    while a < b && (run[a] == '-' || run[a] == '_')
        invariant
            a <= b <= run@.len(),
            b == run@.len(),
            strip_dashes(run@) == strip_dashes(run@.subrange(a as int, b as int)),
        decreases b - a,
    {
        assert(run@.subrange(a as int, b as int).drop_first() == run@.subrange(a + 1, b as int));
        a += 1;
    }
    while a < b && (run[b - 1] == '-' || run[b - 1] == '_')
        invariant
            a <= b <= run@.len(),
            strip_dashes(run@) == strip_dashes(run@.subrange(a as int, b as int)),
            a < b ==> !dash_or_underscore(run@[a as int]),
        decreases b - a,
    {
        assert(run@.subrange(a as int, b as int).drop_last() == run@.subrange(a as int, b - 1));
        if a < b - 1 {
            assert(run@.subrange(a as int, b as int)[0] == run@.subrange(a as int, b - 1)[0]);
        }
        b -= 1;
    }
    let mut r: Vec<String> = Vec::new();
    if b - a >= 2 {
        let t = copy_range(run.as_slice(), a, b);
        r.push(string_from_chars(t.as_slice()));
        assert(r@.map_values(|t: String| t@) =~= seq![t@]);
    } else {
        assert(r@.map_values(|t: String| t@) =~= Seq::<Seq<char>>::empty());
    }
    r
}

fn cjk_token_list(run: &Vec<char>) -> (r: Vec<String>)
    ensures
        r@.map_values(|t: String| t@) == cjk_tokens(run@),
{
    let mut r: Vec<String> = Vec::new();
    let n = run.len();
    if n < 2 {
        assert(r@.map_values(|t: String| t@) =~= Seq::<Seq<char>>::empty());
        return r;
    }
    if n <= 4 {
        r.push(string_from_chars(run.as_slice()));
        assert(r@.map_values(|t: String| t@) =~= seq![run@]);
        return r;
    }
    let mut i: usize = 0;
    while i + 1 < n
        invariant
            n == run@.len(),
            n > 4,
            i + 1 <= n,
            r@.map_values(|t: String| t@) == Seq::new(i as nat, |k: int| run@.subrange(k, k + 2)),
        decreases n - i,
    {
        let pair = copy_range(run.as_slice(), i, i + 2);
        let ghost before = r@;
        let t = string_from_chars(pair.as_slice());
        r.push(t);
        assert(r@.map_values(|t: String| t@) =~= before.map_values(|t: String| t@).push(run@.subrange(i as int, i + 2)));
        assert(r@.map_values(|t: String| t@) =~= Seq::new((i + 1) as nat, |k: int| run@.subrange(k, k + 2)));
        i += 1;
    }
    assert(cjk_tokens(run@) =~= Seq::new(i as nat, |k: int| run@.subrange(k, k + 2)));
    r
}

fn add_terms(terms: &mut LabelCounts, tokens: &Vec<String>, Ghost(b): Ghost<int>)
    requires
        bounded(old(terms)@, b),
        0 <= b,
        b + tokens@.len() <= i64::MAX,
    ensures
        final(terms)@ == counted(old(terms)@, tokens@.map_values(|t: String| t@)),
        bounded(final(terms)@, b + tokens@.len()),
{
    let ghost start = terms@;
    let ghost ts = tokens@.map_values(|t: String| t@);
    let mut j: usize = 0;
    while j < tokens.len()
        invariant
            j <= tokens@.len(),
            0 <= b,
            b + tokens@.len() <= i64::MAX,
            ts == tokens@.map_values(|t: String| t@),
            terms@ == counted(start, ts.take(j as int)),
            bounded(terms@, b + j),
        decreases tokens.len() - j,
    {
        let ghost before = terms@;
        let t = tokens[j].as_str();
        terms.increment(t, 1);
        proof {
            assert(ts.take(j as int + 1).drop_last() == ts.take(j as int));
            assert(ts.take(j as int + 1).last() == t@);
            assert forall|k: Seq<char>| terms@.contains_key(k) implies terms@[k] <= b + j + 1 by {
                if k != t@ {
                    assert(before.contains_key(k));
                }
            }
        }
        j += 1;
    }
    assert(ts.take(tokens@.len() as int) == ts);
}

/// Counts the terms of a text already in lower case, each once more per occurrence.
pub fn count_prompt_terms(terms: &mut LabelCounts, normalized: &str)
    requires
        normalized@.len() <= i64::MAX,
        bounded(old(terms)@, i64::MAX - normalized@.len()),
    ensures
        final(terms)@ == counted(old(terms)@, prompt_terms(normalized@)),
{
    let ghost b: int = i64::MAX - normalized@.len();
    let ghost start = terms@;
    let v = chars_of(normalized);
    let mut ascii: Vec<char> = Vec::new();
    let mut cjk: Vec<char> = Vec::new();
    let ghost mut found: Seq<Seq<char>> = Seq::empty();
    let mut i: usize = 0;
    while i < v.len()
        invariant
            i <= v@.len(),
            v@ == normalized@,
            b == i64::MAX - normalized@.len(),
            0 <= b,
            term_state(v@.take(i as int)) == (found, ascii@, cjk@),
            found.len() + ascii@.len() + cjk@.len() <= i,
            terms@ == counted(start, found),
            bounded(terms@, b + found.len()),
        decreases v.len() - i,
    {
        let c = v[i];
        let ghost s = v@.take(i as int + 1);
        assert(s.drop_last() == v@.take(i as int));
        assert(s.last() == c);
        proof {
            lemma_run_tokens_short(ascii@);
            lemma_run_tokens_short(cjk@);
        }
        if is_ascii_term_char(c) {
            if cjk.len() > 0 {
                let toks = cjk_token_list(&cjk);
                add_terms(terms, &toks, Ghost(b + found.len()));
                proof {
                    lemma_counted_append(start, found, cjk_tokens(cjk@));
                }
            }
            proof {
                if cjk@.len() == 0 {
                    assert(cjk_tokens(cjk@) =~= Seq::<Seq<char>>::empty());
                }
                found = found + cjk_tokens(cjk@);
            }
            cjk = Vec::new();
            ascii.push(c);
        } else if is_cjk(c) {
            if ascii.len() > 0 {
                let toks = ascii_token_list(&ascii);
                add_terms(terms, &toks, Ghost(b + found.len()));
                proof {
                    lemma_counted_append(start, found, ascii_tokens(ascii@));
                }
            }
            proof {
                if ascii@.len() == 0 {
                    assert(ascii_tokens(ascii@) =~= Seq::<Seq<char>>::empty());
                }
                found = found + ascii_tokens(ascii@);
            }
            ascii = Vec::new();
            cjk.push(c);
        } else {
            if ascii.len() > 0 {
                let toks = ascii_token_list(&ascii);
                add_terms(terms, &toks, Ghost(b + found.len()));
                proof {
                    lemma_counted_append(start, found, ascii_tokens(ascii@));
                }
            }
            proof {
                if ascii@.len() == 0 {
                    assert(ascii_tokens(ascii@) =~= Seq::<Seq<char>>::empty());
                }
                found = found + ascii_tokens(ascii@);
            }
            if cjk.len() > 0 {
                let toks = cjk_token_list(&cjk);
                add_terms(terms, &toks, Ghost(b + found.len()));
                proof {
                    lemma_counted_append(start, found, cjk_tokens(cjk@));
                }
            }
            proof {
                if cjk@.len() == 0 {
                    assert(cjk_tokens(cjk@) =~= Seq::<Seq<char>>::empty());
                }
                found = found + cjk_tokens(cjk@);
            }
            ascii = Vec::new();
            cjk = Vec::new();
        }
        i += 1;
    }
    assert(v@.take(v@.len() as int) == v@);
    proof {
        lemma_run_tokens_short(ascii@);
        lemma_run_tokens_short(cjk@);
    }
    if ascii.len() > 0 {
        let toks = ascii_token_list(&ascii);
        add_terms(terms, &toks, Ghost(b + found.len()));
        proof {
            lemma_counted_append(start, found, ascii_tokens(ascii@));
        }
    }
    proof {
        if ascii@.len() == 0 {
            assert(ascii_tokens(ascii@) =~= Seq::<Seq<char>>::empty());
        }
        found = found + ascii_tokens(ascii@);
    }
    if cjk.len() > 0 {
        let toks = cjk_token_list(&cjk);
        add_terms(terms, &toks, Ghost(b + found.len()));
        proof {
            lemma_counted_append(start, found, cjk_tokens(cjk@));
        }
    }
    proof {
        if cjk@.len() == 0 {
            assert(cjk_tokens(cjk@) =~= Seq::<Seq<char>>::empty());
        }
        found = found + cjk_tokens(cjk@);
    }
}

/// The lower-case form of a text under the Unicode mapping of `str::to_lowercase`.
pub uninterp spec fn unicode_lowercase(s: Seq<char>) -> Seq<char>;

/// `str::to_lowercase`: the text with every character replaced by its Unicode lower-case
/// mapping, which may be longer than one character. Its result is named, not stated: it is a
/// function of the text alone.
#[verifier::external_body]
fn to_lowercase(s: &str) -> (r: String)
    ensures
        r@ == unicode_lowercase(s@),
{
    s.to_lowercase()
}

/// Counts the terms of a text, in lower case, each once more per occurrence; `false`, with
/// nothing counted, when a count could pass `i64::MAX`.
pub fn update_prompt_terms(terms: &mut LabelCounts, text: &str) -> (r: bool)
    ensures
        r == (unicode_lowercase(text@).len() <= i64::MAX && bounded(
            old(terms)@,
            i64::MAX - unicode_lowercase(text@).len(),
        )),
        r ==> final(terms)@ == counted(old(terms)@, prompt_terms(unicode_lowercase(text@))),
        !r ==> final(terms)@ == old(terms)@,
{
    let normalized = to_lowercase(text);
    let n = chars_of(normalized.as_str()).len();
    if n as u64 > 9223372036854775807u64 {
        return false;
    }
    let bound: i64 = 9223372036854775807i64 - n as i64;
    if !terms.all_at_most(bound) {
        return false;
    }
    count_prompt_terms(terms, normalized.as_str());
    true
}

} // verus!
