//! How many tokens there are: the tokens of one length over an alphabet, as a
//! set, and its size.

use crate::text::contains_char;
use crate::token::{is_run, is_token};
use vstd::arithmetic::power::{lemma_pow0, lemma_pow_increases, lemma_pow_positive, pow};
use vstd::prelude::*;
use vstd::relations::injective_on;
use vstd::seq_lib::seq_to_set_is_finite;
use vstd::set_lib::{lemma_len_subset, lemma_map_size, lemma_set_disjoint_lens};
use vstd::slice::slice_subrange;

verus! {

/// How many different tokens there are: the number of different characters
/// of the alphabet, raised to the length.
pub open spec fn token_space(alphabet: Seq<char>, length: nat) -> int {
    pow(alphabet.to_set().len() as int, length)
}

/// The number of different tokens is never negative; it is 1 for the length
/// 0, where the one token is the empty one, and 0 for an empty alphabet and
/// any other length.
pub proof fn lemma_token_space_bounds(alphabet: Seq<char>, length: nat)
    ensures
        token_space(alphabet, length) >= 0,
        length == 0 ==> token_space(alphabet, length) == 1,
        length > 0 && alphabet.len() == 0 ==> token_space(alphabet, length) == 0,
        alphabet.len() > 0 ==> token_space(alphabet, length) >= 1,
{
    let distinct = alphabet.to_set().len();
    seq_to_set_is_finite(alphabet);
    lemma_pow0(distinct as int);
    if alphabet.len() == 0 {
        assert(alphabet.to_set() =~= Set::<char>::empty());
        if length > 0 {
            lemma_zero_pow(length);
        }
    } else {
        assert(alphabet.to_set().contains(alphabet[0]));
        lemma_pow_positive(distinct as int, length);
    }
}

/// The number of different characters in `chars`.
pub fn count_distinct(chars: &[char]) -> (count: usize)
    ensures
        count == chars@.to_set().len(),
{
    let mut count: usize = 0;
    let mut i: usize = 0;
    assert(chars@.take(0).to_set() =~= Set::<char>::empty());
    while i < chars.len()
        invariant
            i <= chars@.len(),
            count <= i,
            count == chars@.take(i as int).to_set().len(),
        decreases chars@.len() - i,
    {
        let seen = contains_char(slice_subrange(chars, 0, i), chars[i]);
        proof {
            let done = chars@.take(i as int);
            assert(chars@.subrange(0, i as int) =~= done);
            assert(chars@.take(i + 1) =~= done.push(chars@[i as int]));
            done.lemma_push_to_set_commute(chars@[i as int]);
            seq_to_set_is_finite(done);
            assert(done.to_set().contains(chars@[i as int]) == done.contains(chars@[i as int]));
        }
        if !seen {
            count += 1;
        }
        i += 1;
    }
    assert(chars@.take(chars@.len() as int) =~= chars@);
    count
}

/// Whether `distinct` characters and `length` places allow `count` different
/// tokens.
pub fn space_covers(distinct: usize, length: usize, count: usize) -> (enough: bool)
    ensures
        enough == (pow(distinct as int, length as nat) >= count),
{
    if length == 0 {
        proof {
            lemma_pow0(distinct as int);
        }
        return count <= 1;
    }
    if distinct == 0 {
        proof {
            lemma_zero_pow(length as nat);
        }
        return count == 0;
    }
    proof {
        lemma_pow_positive(distinct as int, length as nat);
        lemma_pow0(distinct as int);
    }
    if count <= 1 {
        return true;
    }
    if distinct == 1 {
        proof {
            lemma_one_pow(length as nat);
        }
        return false;
    }
    let mut reached: usize = 1;
    let mut i: usize = 0;
    while i < length
        invariant
            i <= length,
            distinct >= 2,
            reached == pow(distinct as int, i as nat),
            1 <= reached < count,
        decreases length - i,
    {
        proof {
            lemma_pow_step(distinct as int, i as nat);
            lemma_pow_increases(distinct as nat, (i + 1) as nat, length as nat);
            assert(reached * distinct >= reached * 2) by (nonlinear_arith)
                requires
                    distinct >= 2,
                    reached >= 1,
            ;
        }
        match reached.checked_mul(distinct) {
            None => {
                return true;
            },
            Some(next) => {
                if next >= count {
                    return true;
                }
                reached = next;
            },
        }
        i += 1;
    }
    false
}

/// One more place multiplies the number of tokens by the number of
/// characters.
proof fn lemma_pow_step(b: int, e: nat)
    ensures
        pow(b, e + 1) == pow(b, e) * b,
{
    reveal(pow);
    assert(pow(b, e + 1) == b * pow(b, e));
    assert(b * pow(b, e) == pow(b, e) * b) by (nonlinear_arith);
}

/// No token of one place or more can be made from no character.
proof fn lemma_zero_pow(e: nat)
    requires
        e > 0,
    ensures
        pow(0, e) == 0,
{
    reveal(pow);
    assert(pow(0, e) == 0 * pow(0, (e - 1) as nat));
}

/// One character makes one token, whatever the length.
proof fn lemma_one_pow(e: nat)
    ensures
        pow(1, e) == 1,
    decreases e,
{
    reveal(pow);
    if e > 0 {
        lemma_one_pow((e - 1) as nat);
    }
}

/// The tokens of `length` characters over the characters `chars`.
pub open spec fn tokens_over(chars: Set<char>, length: nat) -> Set<Seq<char>> {
    Set::new(
        |t: Seq<char>|
            {
                &&& t.len() == length
                &&& forall|i: int| 0 <= i < t.len() ==> chars.contains(#[trigger] t[i])
            },
    )
}

/// The sequences that are one of `shorter` with one of `last` behind it.
spec fn extended(shorter: Set<Seq<char>>, last: Set<char>) -> Set<Seq<char>> {
    Set::new(
        |t: Seq<char>| t.len() > 0 && shorter.contains(t.drop_last()) && last.contains(t.last()),
    )
}

/// There are as many extended sequences as there are pairs of a shorter one
/// and a last character.
proof fn lemma_extended_size(shorter: Set<Seq<char>>, last: Set<char>)
    requires
        shorter.finite(),
        last.finite(),
    ensures
        extended(shorter, last).finite(),
        extended(shorter, last).len() == shorter.len() * last.len(),
    decreases last.len(),
{
    if last.len() == 0 {
        last.lemma_len0_is_empty();
        assert(extended(shorter, last) =~= Set::<Seq<char>>::empty());
        assert(shorter.len() * 0 == 0) by (nonlinear_arith);
    } else {
        let c = last.choose();
        let rest = last.remove(c);
        lemma_extended_size(shorter, rest);
        let with = |t: Seq<char>| t.push(c);
        let with_c = shorter.map(with);
        assert(injective_on(with, shorter)) by {
            assert forall|x: Seq<char>, y: Seq<char>|
                #[trigger] with(x) == #[trigger] with(y) implies x == y by {
                assert(x =~= with(x).drop_last());
                assert(y =~= with(y).drop_last());
            }
        }
        lemma_map_size(shorter, with_c, with);
        let others = extended(shorter, rest);
        assert forall|t: Seq<char>| extended(shorter, last).contains(t) <==> others.contains(t)
            || with_c.contains(t) by {
            if with_c.contains(t) {
                let x = choose|x: Seq<char>| shorter.contains(x) && t == with(x);
                assert(t.drop_last() =~= x);
            }
            if extended(shorter, last).contains(t) && t.last() == c {
                assert(t =~= with(t.drop_last()));
            }
        }
        assert(extended(shorter, last) =~= others + with_c);
        assert(others.disjoint(with_c)) by {
            assert forall|t: Seq<char>| !(others.contains(t) && with_c.contains(t)) by {
                if with_c.contains(t) {
                    let x = choose|x: Seq<char>| shorter.contains(x) && t == with(x);
                    assert(t.last() == c);
                }
            }
        }
        lemma_set_disjoint_lens(others, with_c);
        assert(shorter.len() * rest.len() + shorter.len() == shorter.len() * last.len())
            by (nonlinear_arith)
            requires
                rest.len() + 1 == last.len(),
        ;
    }
}

/// Over `n` characters there are `n` to the power of `length` tokens of
/// `length` characters.
pub proof fn lemma_tokens_over_size(chars: Set<char>, length: nat)
    requires
        chars.finite(),
    ensures
        tokens_over(chars, length).finite(),
        tokens_over(chars, length).len() == pow(chars.len() as int, length),
    decreases length,
{
    if length == 0 {
        let empty = Seq::<char>::empty();
        assert forall|t: Seq<char>| tokens_over(chars, 0).contains(t) implies t == empty by {
            assert(t =~= empty);
        }
        assert(tokens_over(chars, 0) =~= Set::<Seq<char>>::empty().insert(empty));
        lemma_pow0(chars.len() as int);
    } else {
        let shorter = tokens_over(chars, (length - 1) as nat);
        lemma_tokens_over_size(chars, (length - 1) as nat);
        assert forall|t: Seq<char>| tokens_over(chars, length).contains(t) <==> extended(
            shorter,
            chars,
        ).contains(t) by {
            if tokens_over(chars, length).contains(t) {
                assert forall|i: int| 0 <= i < t.drop_last().len() implies chars.contains(
                    #[trigger] t.drop_last()[i],
                ) by {
                    assert(t.drop_last()[i] == t[i]);
                }
                assert(t.last() == t[t.len() - 1]);
            }
            if extended(shorter, chars).contains(t) {
                assert forall|i: int| 0 <= i < t.len() implies chars.contains(#[trigger] t[i]) by {
                    if i < t.len() - 1 {
                        assert(t[i] == t.drop_last()[i]);
                    }
                }
            }
        }
        assert(tokens_over(chars, length) =~= extended(shorter, chars));
        lemma_extended_size(shorter, chars);
        reveal(pow);
        assert(shorter.len() * chars.len() == chars.len() * shorter.len()) by (nonlinear_arith);
    }
}

/// The number of different tokens is the size of the set of the tokens over
/// the alphabet.
pub proof fn lemma_token_space_counts(alphabet: Seq<char>, length: nat)
    ensures
        tokens_over(alphabet.to_set(), length).finite(),
        token_space(alphabet, length) == tokens_over(alphabet.to_set(), length).len(),
        forall|t: Seq<char>|
            is_token(t, alphabet, length) <==> #[trigger] tokens_over(
                alphabet.to_set(),
                length,
            ).contains(t),
{
    seq_to_set_is_finite(alphabet);
    lemma_tokens_over_size(alphabet.to_set(), length);
}

/// A run never holds more tokens than there are: no `count` tokens over
/// `alphabet`, all different, exist beyond the number of different tokens.
pub proof fn lemma_run_within_token_space(
    tokens: Seq<Seq<char>>,
    alphabet: Seq<char>,
    count: nat,
    length: nat,
)
    requires
        is_run(tokens, alphabet, count, length),
    ensures
        count <= token_space(alphabet, length),
{
    lemma_token_space_counts(alphabet, length);
    let all = tokens_over(alphabet.to_set(), length);
    tokens.unique_seq_to_set();
    assert forall|t: Seq<char>| tokens.to_set().contains(t) implies all.contains(t) by {
        let i = choose|i: int| 0 <= i < tokens.len() && tokens[i] == t;
        assert(is_token(tokens[i], alphabet, length));
    }
    lemma_len_subset(tokens.to_set(), all);
}

} // verus!
