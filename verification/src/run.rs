//! One run: from the alphabet, the count and the length to the tokens and
//! their CSV document.

use crate::encoding::{csv_document, write_token};
use crate::error::RunError;
use crate::space::{count_distinct, lemma_token_space_bounds, space_covers, token_space};
use crate::text::chars_of;
use crate::token::{gen_token, is_run, TokenSet};
use vstd::prelude::*;

verus! {

/// How many draws a run makes for one token before it gives up.
///
/// The bound is there so that every run ends; it is far beyond what a run
/// that can be waited for will ever use.
pub const ATTEMPTS_PER_TOKEN: u64 = 0xffff_ffff_ffff_ffff;

/// What a run produces.
pub struct CsvOutput {
    /// The tokens in the order in which they were generated.
    pub tokens: Vec<String>,
    /// The document: one record for each token, in the same order.
    pub bytes: Vec<u8>,
}

/// Generates `token_count` different tokens of `token_length` characters over
/// `character_set`, and their CSV document.
///
/// A run that asks for more tokens than the alphabet and the length allow is
/// refused with `TokenSpaceExhausted` before anything is drawn: it could
/// never end. Every other run draws each token until it differs from those
/// before it, at most `ATTEMPTS_PER_TOKEN` times, and fails with `RetryLimit`
/// where that is not enough. The nearer the count comes to the number of
/// different tokens, the more draws the last tokens take. The first token
/// has nothing to differ from, so a run of one token cannot fail.
pub fn build_csv(character_set: &str, token_count: usize, token_length: usize) -> (result: Result<
    CsvOutput,
    RunError,
>)
    ensures
        match result {
            Ok(out) => {
                &&& is_run(
                    out.tokens.deep_view(),
                    character_set@,
                    token_count as nat,
                    token_length as nat,
                )
                &&& out.bytes@ == csv_document(out.tokens.deep_view())
            },
            Err(e) => e is TokenSpaceExhausted || e is RetryLimit,
        },
        (result matches Err(e) && e is TokenSpaceExhausted) <==> token_space(
            character_set@,
            token_length as nat,
        ) < token_count,
        token_count <= 1 && token_space(character_set@, token_length as nat) >= token_count
            ==> result is Ok,
{
    let alphabet = chars_of(character_set);
    proof {
        lemma_token_space_bounds(character_set@, token_length as nat);
    }
    if !space_covers(count_distinct(alphabet.as_slice()), token_length, token_count) {
        return Err(RunError::TokenSpaceExhausted);
    }
    let mut rng = rand::rng();
    let mut set = TokenSet::new();
    let mut tokens: Vec<String> = Vec::new();
    let mut bytes: Vec<u8> = Vec::new();
    proof {
        assert(tokens.deep_view() =~= Seq::<Seq<char>>::empty());
    }
    let mut i: usize = 0;
    while i < token_count
        invariant
            i <= token_count,
            alphabet@ == character_set@,
            token_space(alphabet@, token_length as nat) >= token_count,
            token_count > 0 ==> alphabet@.len() > 0 || token_length == 0,
            is_run(tokens.deep_view(), alphabet@, i as nat, token_length as nat),
            set@ == tokens.deep_view().to_set(),
            i == 0 ==> set@ == Set::<Seq<char>>::empty(),
            bytes@ == csv_document(tokens.deep_view()),
        decreases token_count - i,
    {
        let token = match gen_token(
            &mut rng,
            alphabet.as_slice(),
            &set,
            token_length,
            ATTEMPTS_PER_TOKEN,
        ) {
            Ok(token) => token,
            Err(e) => {
                return Err(e);
            },
        };
        match write_token(&mut bytes, token.as_str()) {
            Ok(()) => {},
            Err(e) => {
                return Err(e);
            },
        }
        let ghost before = tokens.deep_view();
        set.insert(token.clone());
        tokens.push(token);
        proof {
            let after = tokens.deep_view();
            assert(after =~= before.push(token@));
            assert(after.drop_last() =~= before);
            before.lemma_push_to_set_commute(token@);
            assert(!before.contains(token@));
        }
        i += 1;
    }
    Ok(CsvOutput { tokens, bytes })
}

} // verus!
