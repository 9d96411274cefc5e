//! Per-position feedback tags and the mapping from the game's raw tile states.
use vstd::prelude::*;
use vstd::string::StrSliceExecFns;

verus! {

/// What the game reports for one letter position of a guess.
#[derive(Clone, Copy, Debug, PartialEq, Eq, Structural)]
pub enum Tag {
    /// The letter is in the secret word at this position.
    Correct,
    /// The letter is in the secret word, elsewhere.
    Present,
    /// The letter is not in the secret word.
    Absent,
}

/// Errors that end a solve attempt.
#[derive(Clone, Copy, Debug, PartialEq, Eq, Structural)]
pub enum SolveError {
    /// Filtering removed every candidate before the word was found.
    EmptyCandidateSet,
    /// A raw tile state outside the known vocabulary.
    MalformedFeedback,
}

/// Every tag of the record is `t`.
pub open spec fn is_all(f: Seq<Tag>, t: Tag) -> bool {
    forall|i: int| 0 <= i < f.len() ==> f[i] == t
}

/// Every position is `Correct`: the guess is the secret word.
pub open spec fn all_correct(f: Seq<Tag>) -> bool {
    is_all(f, Tag::Correct)
}

/// Every position is `Absent`.
pub open spec fn all_absent(f: Seq<Tag>) -> bool {
    is_all(f, Tag::Absent)
}

/// The tag that a raw tile state stands for, if it is one of the known words.
pub open spec fn tag_of_state(s: Seq<char>) -> Option<Tag> {
    if s == "correct"@ {
        Some(Tag::Correct)
    } else if s == "present"@ {
        Some(Tag::Present)
    } else if s == "absent"@ {
        Some(Tag::Absent)
    } else {
        None
    }
}

/// Whether every raw state of a row is a known one.
pub open spec fn row_is_known(states: Seq<String>) -> bool {
    forall|i: int| 0 <= i < states.len() ==> tag_of_state(#[trigger] states[i]@).is_some()
}

/// The feedback record of a row whose states are all known.
pub open spec fn row_tags(states: Seq<String>) -> Seq<Tag> {
    Seq::new(states.len(), |i: int| tag_of_state(states[i]@).unwrap())
}

/// Whether two strings hold the same characters.
pub(crate) fn same_text(s: &str, lit: &str) -> (r: bool)
    ensures
        r == (s@ == lit@),
{
    let n = s.unicode_len();
    if n != lit.unicode_len() {
        return false;
    }
    let mut i: usize = 0;
    while i < n
        invariant
            n == s@.len(),
            n == lit@.len(),
            i <= n,
            forall|j: int| 0 <= j < i ==> s@[j] == lit@[j],
        decreases n - i,
    {
        if s.get_char(i) != lit.get_char(i) {
            return false;
        }
        i = i + 1;
    }
    assert(s@ =~= lit@);
    true
}

/// Maps one raw tile state to its tag; an unknown state is a protocol mismatch.
pub fn interpret_tile(state: &str) -> (r: Result<Tag, SolveError>)
    ensures
        match tag_of_state(state@) {
            Some(t) => r == Ok::<Tag, SolveError>(t),
            None => r == Err::<Tag, SolveError>(SolveError::MalformedFeedback),
        },
{
    proof {
        reveal_strlit("correct");
        reveal_strlit("present");
        reveal_strlit("absent");
    }
    if same_text(state, "correct") {
        Ok(Tag::Correct)
    } else if same_text(state, "present") {
        Ok(Tag::Present)
    } else if same_text(state, "absent") {
        Ok(Tag::Absent)
    } else {
        Err(SolveError::MalformedFeedback)
    }
}

/// Turns the raw tile states of a completed row into a feedback record of the
/// same length, failing on the first unknown state.
pub fn interpret_row(states: &Vec<String>) -> (r: Result<Vec<Tag>, SolveError>)
    ensures
        row_is_known(states@) ==> r == Ok::<Vec<Tag>, SolveError>(r.unwrap())
            && r.unwrap()@ == row_tags(states@),
        !row_is_known(states@) ==> r == Err::<Vec<Tag>, SolveError>(SolveError::MalformedFeedback),
{
    let mut tags: Vec<Tag> = Vec::new();
    let mut i: usize = 0;
    while i < states.len()
        invariant
            i <= states@.len(),
            tags@.len() == i,
            forall|j: int| 0 <= j < i ==> tag_of_state(#[trigger] states@[j]@) == Some(tags@[j]),
        decreases states@.len() - i,
    {
        match interpret_tile(states[i].as_str()) {
            Ok(t) => tags.push(t),
            Err(e) => {
                return Err(e);
            },
        }
        i = i + 1;
    }
    assert(tags@ =~= row_tags(states@));
    Ok(tags)
}

/// Whether every tag of the record is `Correct`.
pub fn is_all_correct(f: &Vec<Tag>) -> (r: bool)
    ensures
        r == all_correct(f@),
{
    has_only(f, Tag::Correct)
}

/// Whether every tag of the record is `Absent`.
pub fn is_all_absent(f: &Vec<Tag>) -> (r: bool)
    ensures
        r == all_absent(f@),
{
    has_only(f, Tag::Absent)
}

fn has_only(f: &Vec<Tag>, t: Tag) -> (r: bool)
    ensures
        r == is_all(f@, t),
{
    let mut i: usize = 0;
    while i < f.len()
        invariant
            i <= f@.len(),
            forall|j: int| 0 <= j < i ==> f@[j] == t,
        decreases f@.len() - i,
    {
        if f[i] != t {
            return false;
        }
        i = i + 1;
    }
    true
}

/// The guess with every letter that is not `Correct` shown as `_`.
pub open spec fn mask_of(guess: Seq<char>, f: Seq<Tag>) -> Seq<char> {
    Seq::new(guess.len(), |i: int| if f[i] == Tag::Correct { guess[i] } else { '_' })
}

/// A diagnostic line that shows only the letters placed correctly.
pub fn masked_line(guess: &str, f: &Vec<Tag>) -> (r: Vec<char>)
    requires
        guess@.len() == f@.len(),
    ensures
        r@ == mask_of(guess@, f@),
{
    let n = guess.unicode_len();
    let mut line: Vec<char> = Vec::new();
    let mut i: usize = 0;
    while i < n
        invariant
            n == guess@.len(),
            n == f@.len(),
            i <= n,
            line@ =~= mask_of(guess@, f@).subrange(0, i as int),
        decreases n - i,
    {
        let c = if f[i] == Tag::Correct { guess.get_char(i) } else { '_' };
        line.push(c);
        i = i + 1;
    }
    assert(line@ =~= mask_of(guess@, f@));
    line
}

} // verus!
