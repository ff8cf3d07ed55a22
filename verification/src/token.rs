//! Drawing tokens: fixed-length strings over the alphabet, none of them twice
//! in one run.

use crate::error::RunError;
use rand::rngs::ThreadRng;
use rand::seq::IndexedRandom;
use vstd::hash_set::StringHashSet;
use vstd::prelude::*;

verus! {

/// The generator that `rand` keeps for each thread.
#[verifier::external_type_specification]
#[verifier::external_body]
pub struct ExThreadRng(ThreadRng);

/// `rand::rng` hands out a handle to the calling thread's generator. Nothing
/// is claimed of the handle.
pub assume_specification[ rand::rng ]() -> (rng: ThreadRng)
;

/// `IndexedRandom::choose` on a slice: `None` for an empty slice, otherwise one
/// of its elements. Which one is left open.
#[verifier::external_body]
fn choose_char(rng: &mut ThreadRng, character_set: &[char]) -> (choice: Option<char>)
    ensures
        character_set@.len() == 0 ==> choice is None,
        character_set@.len() > 0 ==> choice is Some && character_set@.contains(choice->0),
{
    character_set.choose(rng).copied()
}

/// A token over `alphabet`: `length` characters, each of them from the
/// alphabet.
pub open spec fn is_token(token: Seq<char>, alphabet: Seq<char>, length: nat) -> bool {
    &&& token.len() == length
    &&& forall|i: int| 0 <= i < token.len() ==> alphabet.contains(#[trigger] token[i])
}

/// What a finished run holds: `count` tokens over `alphabet`, each of
/// `length` characters, no two of them the same.
pub open spec fn is_run(
    tokens: Seq<Seq<char>>,
    alphabet: Seq<char>,
    count: nat,
    length: nat,
) -> bool {
    &&& tokens.len() == count
    &&& tokens.no_duplicates()
    &&& forall|i: int| 0 <= i < tokens.len() ==> is_token(#[trigger] tokens[i], alphabet, length)
}

/// The tokens that a run has produced so far.
pub struct TokenSet {
    seen: StringHashSet,
}

impl View for TokenSet {
    type V = Set<Seq<char>>;

    closed spec fn view(&self) -> Set<Seq<char>> {
        self.seen@
    }
}

impl TokenSet {
    /// The empty set.
    pub fn new() -> (set: TokenSet)
        ensures
            set@ == Set::<Seq<char>>::empty(),
    {
        TokenSet { seen: StringHashSet::new() }
    }

    /// Whether the set holds `token`.
    pub fn contains(&self, token: &str) -> (found: bool)
        ensures
            found == self@.contains(token@),
    {
        self.seen.contains(token)
    }

    /// Adds `token`; says whether it was new.
    pub fn insert(&mut self, token: String) -> (added: bool)
        ensures
            final(self)@ == old(self)@.insert(token@),
            added == !old(self)@.contains(token@),
    {
        self.seen.insert(token)
    }
}

/// Draws `token_length` characters from `character_set`, one draw for each
/// place.
pub fn draw_token(rng: &mut ThreadRng, character_set: &[char], token_length: usize) -> (token:
    String)
    requires
        character_set@.len() > 0 || token_length == 0,
    ensures
        is_token(token@, character_set@, token_length as nat),
{
    let mut buf = String::new();
    let mut i: usize = 0;
    while i < token_length
        invariant
            i <= token_length,
            character_set@.len() > 0 || token_length == 0,
            is_token(buf@, character_set@, i as nat),
        decreases token_length - i,
    {
        let drawn = choose_char(rng, character_set);
        buf.push(drawn.unwrap());
        i += 1;
    }
    buf
}

/// Keeps a candidate that the run does not hold yet, and drops one that it
/// holds.
pub fn accept_candidate(candidate: String, already_generated: &TokenSet) -> (kept: Option<String>)
    ensures
        kept == (if already_generated@.contains(candidate@) {
            None
        } else {
            Some(candidate)
        }),
{
    if already_generated.contains(candidate.as_str()) {
        None
    } else {
        Some(candidate)
    }
}

/// Produces one token that `already_generated` does not hold.
///
/// A draw that gives a token of the set is thrown away as a whole and made
/// again, at most `max_attempts` times in all; with no attempt allowed
/// nothing is drawn. Where the set holds no token of this alphabet and
/// length, the first draw is kept.
pub fn gen_token(
    rng: &mut ThreadRng,
    character_set: &[char],
    already_generated: &TokenSet,
    token_length: usize,
    max_attempts: u64,
) -> (result: Result<String, RunError>)
    requires
        character_set@.len() > 0 || token_length == 0,
    ensures
        match result {
            Ok(token) => is_token(token@, character_set@, token_length as nat)
                && !already_generated@.contains(token@),
            Err(e) => e is RetryLimit,
        },
        max_attempts == 0 ==> result is Err,
        max_attempts > 0 && (forall|t: Seq<char>|
            already_generated@.contains(t) ==> !is_token(t, character_set@, token_length as nat))
            ==> result is Ok,
{
    let mut attempts: u64 = 0;
    while attempts < max_attempts
        invariant
            character_set@.len() > 0 || token_length == 0,
            attempts <= max_attempts,
            attempts > 0 ==> exists|t: Seq<char>|
                already_generated@.contains(t) && is_token(
                    t,
                    character_set@,
                    token_length as nat,
                ),
        decreases max_attempts - attempts,
    {
        let candidate = draw_token(rng, character_set, token_length);
        let ghost drawn = candidate@;
        match accept_candidate(candidate, already_generated) {
            Some(token) => {
                return Ok(token);
            },
            None => {
                assert(already_generated@.contains(drawn) && is_token(
                    drawn,
                    character_set@,
                    token_length as nat,
                ));
            },
        }
        attempts += 1;
    }
    Err(RunError::RetryLimit)
}

} // verus!
