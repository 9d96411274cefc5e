//! The constraint solver: narrows a candidate list to the words that agree
//! with one guess and its feedback.
use vstd::prelude::*;
use vstd::string::StrSliceExecFns;
use crate::feedback::{Tag, all_correct, all_absent, is_all_correct, is_all_absent, same_text};

verus! {

broadcast use vstd::seq_lib::group_filter_ensures;

/// The letter view of each word of a list.
pub open spec fn words_of(v: Seq<String>) -> Seq<Seq<char>> {
    v.map_values(|w: String| w@)
}

/// Whether `w` holds `c` at position `i`.
pub open spec fn has_at(w: Seq<char>, i: int, c: char) -> bool {
    0 <= i < w.len() && w[i] == c
}

/// Whether `w` agrees with the fact that guessed letter `c` at position `i` got tag `t`.
pub open spec fn allows(w: Seq<char>, i: int, c: char, t: Tag) -> bool {
    match t {
        Tag::Correct => has_at(w, i, c),
        Tag::Present => w.contains(c) && !has_at(w, i, c),
        Tag::Absent => !has_at(w, i, c),
    }
}

/// Whether `w` holds some letter of `g`.
pub open spec fn shares_letter(w: Seq<char>, g: Seq<char>) -> bool {
    exists|j: int| 0 <= j < g.len() && w.contains(#[trigger] g[j])
}

/// Whether candidate `w` survives guess `g` with feedback `f`: an all-correct row
/// keeps everything; otherwise the guess itself goes, an all-absent row drops each
/// word sharing any letter with the guess, and every position's tag must hold.
pub open spec fn keeps(w: Seq<char>, g: Seq<char>, f: Seq<Tag>) -> bool {
    all_correct(f) || (w != g && !(all_absent(f) && shares_letter(w, g)) && forall|i: int|
        0 <= i < g.len() ==> #[trigger] allows(w, i, g[i], f[i]))
}

/// The candidates left after guess `g` with feedback `f`, in their order.
pub open spec fn filtered(c: Seq<Seq<char>>, g: Seq<char>, f: Seq<Tag>) -> Seq<Seq<char>> {
    c.filter(|w: Seq<char>| keeps(w, g, f))
}

fn holds_char(w: &str, c: char) -> (r: bool)
    ensures
        r == w@.contains(c),
{
    let n = w.unicode_len();
    let mut i: usize = 0;
    while i < n
        invariant
            n == w@.len(),
            i <= n,
            forall|j: int| 0 <= j < i ==> w@[j] != c,
        decreases n - i,
    {
        if w.get_char(i) == c {
            return true;
        }
        i = i + 1;
    }
    false
}

fn shares_any(w: &str, g: &str) -> (r: bool)
    ensures
        r == shares_letter(w@, g@),
{
    let n = g.unicode_len();
    let mut j: usize = 0;
    while j < n
        invariant
            n == g@.len(),
            j <= n,
            forall|k: int| 0 <= k < j ==> !w@.contains(#[trigger] g@[k]),
        decreases n - j,
    {
        if holds_char(w, g.get_char(j)) {
            return true;
        }
        j = j + 1;
    }
    false
}

fn tag_allows(w: &str, i: usize, c: char, t: Tag) -> (r: bool)
    ensures
        r == allows(w@, i as int, c, t),
{
    let at = i < w.unicode_len() && w.get_char(i) == c;
    match t {
        Tag::Correct => at,
        Tag::Present => holds_char(w, c) && !at,
        Tag::Absent => !at,
    }
}

/// Whether a single candidate survives the guess and its feedback.
pub fn survives(w: &str, guess: &str, feedback: &Vec<Tag>) -> (r: bool)
    requires
        guess@.len() == feedback@.len(),
    ensures
        r == keeps(w@, guess@, feedback@),
{
    if is_all_correct(feedback) {
        return true;
    }
    if same_text(w, guess) {
        return false;
    }
    if is_all_absent(feedback) && shares_any(w, guess) {
        return false;
    }
    let n = guess.unicode_len();
    let mut i: usize = 0;
    while i < n
        invariant
            n == guess@.len(),
            n == feedback@.len(),
            i <= n,
            !all_correct(feedback@),
            w@ != guess@,
            !(all_absent(feedback@) && shares_letter(w@, guess@)),
            forall|k: int| 0 <= k < i ==> #[trigger] allows(w@, k, guess@[k], feedback@[k]),
        decreases n - i,
    {
        if !tag_allows(w, i, guess.get_char(i), feedback[i]) {
            assert(!allows(w@, i as int, guess@[i as int], feedback@[i as int]));
            return false;
        }
        i = i + 1;
    }
    true
}

/// Filters the candidates by one guess and its feedback: the kept words, in their
/// order, are exactly those that `keeps` admits.
pub fn apply(candidates: &Vec<String>, guess: &str, feedback: &Vec<Tag>) -> (r: Vec<String>)
    requires
        guess@.len() == feedback@.len(),
    ensures
        words_of(r@) == filtered(words_of(candidates@), guess@, feedback@),
{
    let ghost pred = |w: Seq<char>| keeps(w, guess@, feedback@);
    let mut kept: Vec<String> = Vec::new();
    let mut i: usize = 0;
    while i < candidates.len()
        invariant
            i <= candidates@.len(),
            guess@.len() == feedback@.len(),
            pred == (|w: Seq<char>| keeps(w, guess@, feedback@)),
            words_of(kept@) == words_of(candidates@.subrange(0, i as int)).filter(pred),
        decreases candidates@.len() - i,
    {
        let ghost before = words_of(candidates@.subrange(0, i as int));
        proof {
            assert(words_of(candidates@.subrange(0, i + 1)).drop_last() =~= before);
            reveal(Seq::filter);
        }
        if survives(candidates[i].as_str(), guess, feedback) {
            kept.push(candidates[i].clone());
            assert(words_of(kept@) =~= before.filter(pred).push(candidates@[i as int]@));
        }
        i = i + 1;
    }
    assert(candidates@.subrange(0, candidates@.len() as int) =~= candidates@);
    kept
}

proof fn lemma_filter_twice(s: Seq<Seq<char>>, p: spec_fn(Seq<char>) -> bool)
    ensures
        s.filter(p).filter(p) == s.filter(p),
    decreases s.len(),
{
    reveal(Seq::filter);
    if s.len() > 0 {
        lemma_filter_twice(s.drop_last(), p);
        if p(s.last()) {
            let t = s.drop_last().filter(p);
            assert(t.push(s.last()).drop_last() =~= t);
        }
    }
}

/// How many positions below `n` hold `c` in the secret `s` without a match in `g`.
pub open spec fn unmatched_count(s: Seq<char>, g: Seq<char>, c: char, n: int) -> nat
    decreases n,
{
    if n <= 0 {
        0
    } else {
        unmatched_count(s, g, c, n - 1) + if s[n - 1] == c && g[n - 1] != s[n - 1] {
            1nat
        } else {
            0nat
        }
    }
}

/// How many positions below `i` of the guess `g` hold `c` without a match in `s`.
pub open spec fn prior_count(g: Seq<char>, s: Seq<char>, c: char, i: int) -> nat
    decreases i,
{
    if i <= 0 {
        0
    } else {
        prior_count(g, s, c, i - 1) + if g[i - 1] == c && g[i - 1] != s[i - 1] {
            1nat
        } else {
            0nat
        }
    }
}

/// The tag the game gives position `i` of guess `g` against secret `s`: matches
/// first, then the unmatched letters of the secret go to the guess's unmatched
/// occurrences from left to right.
pub open spec fn true_tag(g: Seq<char>, s: Seq<char>, i: int) -> Tag {
    if g[i] == s[i] {
        Tag::Correct
    } else if prior_count(g, s, g[i], i) < unmatched_count(s, g, g[i], s.len() as int) {
        Tag::Present
    } else {
        Tag::Absent
    }
}

/// The feedback record the game gives for guess `g` against secret `s`.
pub open spec fn true_feedback(g: Seq<char>, s: Seq<char>) -> Seq<Tag> {
    Seq::new(g.len(), |i: int| true_tag(g, s, i))
}

proof fn lemma_unmatched_witness(s: Seq<char>, g: Seq<char>, c: char, n: int)
    requires
        0 <= n <= s.len(),
        n <= g.len(),
        unmatched_count(s, g, c, n) > 0,
    ensures
        s.contains(c),
    decreases n,
{
    if s[n - 1] == c && g[n - 1] != s[n - 1] {
        assert(s[n - 1] == c);
    } else {
        lemma_unmatched_witness(s, g, c, n - 1);
    }
}

proof fn lemma_unmatched_positive(s: Seq<char>, g: Seq<char>, c: char, n: int, k: int)
    requires
        0 <= k < n,
        s[k] == c,
        g[k] != s[k],
    ensures
        unmatched_count(s, g, c, n) > 0,
    decreases n,
{
    if k < n - 1 {
        lemma_unmatched_positive(s, g, c, n - 1, k);
    }
}

proof fn lemma_prior_none(g: Seq<char>, s: Seq<char>, c: char, i: int)
    requires
        forall|j: int| 0 <= j < i ==> g[j] != c,
    ensures
        prior_count(g, s, c, i) == 0,
    decreases i,
{
    if i > 0 {
        lemma_prior_none(g, s, c, i - 1);
    }
}

proof fn lemma_first_occurrence(g: Seq<char>, c: char, j: int) -> (i: int)
    requires
        0 <= j < g.len(),
        g[j] == c,
    ensures
        0 <= i <= j,
        g[i] == c,
        forall|k: int| 0 <= k < i ==> g[k] != c,
    decreases j,
{
    if exists|k: int| 0 <= k < j && g[k] == c {
        let k = choose|k: int| 0 <= k < j && g[k] == c;
        lemma_first_occurrence(g, c, k)
    } else {
        j
    }
}

/// Truthful feedback never rules out the secret word: whenever the secret is a
/// candidate, it is still one after filtering by any guess of its length.
pub proof fn lemma_secret_survives(c: Seq<Seq<char>>, g: Seq<char>, s: Seq<char>)
    requires
        g.len() == s.len(),
        c.contains(s),
    ensures
        filtered(c, g, true_feedback(g, s)).contains(s),
{
    let f = true_feedback(g, s);
    if !all_correct(f) {
        if s == g {
            assert forall|i: int| 0 <= i < f.len() implies f[i] == Tag::Correct by {
                assert(true_tag(g, s, i) == Tag::Correct);
            }
        }
        assert forall|i: int| 0 <= i < g.len() implies #[trigger] allows(s, i, g[i], f[i]) by {
            if f[i] == Tag::Present {
                lemma_unmatched_witness(s, g, g[i], s.len() as int);
            }
        }
        if all_absent(f) && shares_letter(s, g) {
            let j = choose|j: int| 0 <= j < g.len() && s.contains(#[trigger] g[j]);
            let ch = g[j];
            let k = choose|k: int| 0 <= k < s.len() && s[k] == ch;
            assert(f[k] == Tag::Absent);
            lemma_unmatched_positive(s, g, ch, s.len() as int, k);
            let i0 = lemma_first_occurrence(g, ch, j);
            lemma_prior_none(g, s, ch, i0);
            assert(f[i0] == Tag::Absent);
            assert(true_tag(g, s, i0) == Tag::Present);
        }
    }
    assert(keeps(s, g, f));
    let p = |w: Seq<char>| keeps(w, g, f);
    let k = choose|k: int| 0 <= k < c.len() && c[k] == s;
    c.lemma_filter_contains(p, k);
}

/// Truthful feedback is all correct only when the guess is the secret.
pub proof fn lemma_all_correct_is_secret(g: Seq<char>, s: Seq<char>)
    requires
        g.len() == s.len(),
        all_correct(true_feedback(g, s)),
    ensures
        g == s,
{
    assert forall|i: int| 0 <= i < g.len() implies g[i] == s[i] by {
        assert(true_feedback(g, s)[i] == Tag::Correct);
    }
    assert(g =~= s);
}

/// Filtering twice by the same guess and feedback gives what filtering once gives.
pub proof fn lemma_apply_idempotent(c: Seq<Seq<char>>, g: Seq<char>, f: Seq<Tag>)
    ensures
        filtered(filtered(c, g, f), g, f) == filtered(c, g, f),
{
    lemma_filter_twice(c, |w: Seq<char>| keeps(w, g, f));
}

proof fn lemma_filter_within(s: Seq<Seq<char>>, p: spec_fn(Seq<char>) -> bool)
    ensures
        forall|k: int| 0 <= k < s.filter(p).len() ==> s.contains(#[trigger] s.filter(p)[k]),
    decreases s.len(),
{
    reveal(Seq::filter);
    if s.len() > 0 {
        let t = s.drop_last();
        lemma_filter_within(t, p);
        assert forall|k: int| 0 <= k < s.filter(p).len() implies s.contains(#[trigger] s.filter(p)[k]) by {
            if k < t.filter(p).len() {
                let j = choose|j: int| 0 <= j < t.len() && t[j] == t.filter(p)[k];
                assert(s[j] == t[j]);
            } else {
                assert(s[s.len() - 1] == s.last());
            }
        }
    }
}

/// Filtering never adds a candidate: every word left was in the list before.
pub proof fn lemma_apply_shrinks(c: Seq<Seq<char>>, g: Seq<char>, f: Seq<Tag>)
    ensures
        filtered(c, g, f).len() <= c.len(),
        forall|w: Seq<char>| #[trigger] filtered(c, g, f).contains(w) ==> c.contains(w),
        !all_correct(f) ==> !filtered(c, g, f).contains(g),
{
    let p = |w: Seq<char>| keeps(w, g, f);
    lemma_filter_within(c, p);
    assert forall|w: Seq<char>| #[trigger] filtered(c, g, f).contains(w) implies c.contains(w) by {
        let k = choose|k: int| 0 <= k < c.filter(p).len() && c.filter(p)[k] == w;
        assert(c.contains(c.filter(p)[k]));
    }
    if !all_correct(f) && c.filter(p).contains(g) {
        let k = choose|k: int| 0 <= k < c.filter(p).len() && c.filter(p)[k] == g;
        c.lemma_filter_pred(p, k);
    }
}

/// When the only candidate left is the guess and the row is not all correct,
/// nothing is left.
pub proof fn lemma_last_candidate_removed(g: Seq<char>, f: Seq<Tag>)
    requires
        !all_correct(f),
    ensures
        filtered(seq![g], g, f).len() == 0,
{
    reveal(Seq::filter);
    let p = |w: Seq<char>| keeps(w, g, f);
    assert(!keeps(g, g, f));
    assert(seq![g].last() == g);
    assert(seq![g].drop_last() =~= Seq::<Seq<char>>::empty());
    assert(Seq::<Seq<char>>::empty().filter(p).len() == 0);
    assert(seq![g].filter(p) == seq![g].drop_last().filter(p));
}

} // verus!
