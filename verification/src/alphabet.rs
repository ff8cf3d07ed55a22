//! The working alphabet: the selected character classes, in a fixed order,
//! without the characters the user excluded.

use crate::text::{chars_of, contains_char};
use vstd::prelude::*;

verus! {

/// The capital letters class.
pub const CAPITALS: &'static str = "ABCDEFGHIJKLMNOPQRSTUVWXYZ";

/// The lowercase letters class.
pub const LOWERS: &'static str = "abcdefghijklmnopqrstuvwxyz";

/// The digits class.
pub const NUMBERS: &'static str = "0123456789";

/// The punctuation class.
pub const SPECIALS: &'static str = ",.;:\"'!%#";

/// Which of the four character classes take part in the alphabet.
#[derive(Clone, Copy, Debug, Default, PartialEq, Eq, Structural)]
pub struct CharClasses {
    pub capitals: bool,
    pub lowercase: bool,
    pub digits: bool,
    pub specials: bool,
}

/// One of the four character classes.
#[derive(Clone, Copy, Debug, PartialEq, Eq, Structural)]
pub enum CharClass {
    Capitals,
    Lowercase,
    Digits,
    Specials,
}

impl CharClass {
    /// The characters of the class, in the order in which they are drawn on.
    pub open spec fn chars(self) -> Seq<char> {
        match self {
            CharClass::Capitals => CAPITALS@,
            CharClass::Lowercase => LOWERS@,
            CharClass::Digits => NUMBERS@,
            CharClass::Specials => SPECIALS@,
        }
    }
}

impl CharClasses {
    /// Whether `class` is selected.
    pub open spec fn selects(self, class: CharClass) -> bool {
        match class {
            CharClass::Capitals => self.capitals,
            CharClass::Lowercase => self.lowercase,
            CharClass::Digits => self.digits,
            CharClass::Specials => self.specials,
        }
    }
}

/// The characters of one class if it is selected, nothing otherwise.
pub open spec fn class_part(classes: CharClasses, class: CharClass) -> Seq<char> {
    if classes.selects(class) {
        class.chars()
    } else {
        Seq::empty()
    }
}

/// The selected classes one after the other: capitals, lowercase, digits,
/// punctuation.
pub open spec fn class_union(classes: CharClasses) -> Seq<char> {
    class_part(classes, CharClass::Capitals) + class_part(classes, CharClass::Lowercase)
        + class_part(classes, CharClass::Digits) + class_part(classes, CharClass::Specials)
}

/// The test a character passes when it is not excluded.
pub open spec fn kept(rejected: Seq<char>) -> spec_fn(char) -> bool {
    |c: char| !rejected.contains(c)
}

/// The alphabet: the selected classes in order, without every character that
/// occurs in `rejected`.
pub open spec fn character_set(classes: CharClasses, rejected: Seq<char>) -> Seq<char> {
    class_union(classes).filter(kept(rejected))
}

/// Appends to `buf` the characters of `class` that are not in `rejected`.
fn push_kept(buf: &mut String, class: &str, rejected: &[char])
    ensures
        final(buf)@ == old(buf)@ + class@.filter(kept(rejected@)),
{
    let ghost before = buf@;
    for c in it: class.chars()
        invariant
            it.seq() == class@,
            buf@ == before + class@.take(it.index()).filter(kept(rejected@)),
    {
        proof {
            let done = class@.take(it.index());
            assert(class@.take(it.index() + 1) =~= done.push(c));
            Seq::lemma_filter_push(done, c, kept(rejected@));
        }
        if !contains_char(rejected, c) {
            buf.push(c);
            assert(buf@ =~= before + class@.take(it.index() + 1).filter(kept(rejected@)));
        }
    }
    assert(class@.take(class@.len() as int) =~= class@);
}

/// Builds the alphabet for the selected classes and the excluded characters.
///
/// The result is empty when no class is selected or when the exclusion
/// removes every character; the caller has to look at that before drawing
/// from it.
pub fn build_character_set(classes: CharClasses, rejected: &str) -> (alphabet: String)
    ensures
        alphabet@ == character_set(classes, rejected@),
{
    let rejected_chars = chars_of(rejected);
    let mut buf = String::new();
    let ghost keep = kept(rejected@);
    if classes.capitals {
        push_kept(&mut buf, CAPITALS, rejected_chars.as_slice());
    }
    if classes.lowercase {
        push_kept(&mut buf, LOWERS, rejected_chars.as_slice());
    }
    if classes.digits {
        push_kept(&mut buf, NUMBERS, rejected_chars.as_slice());
    }
    if classes.specials {
        push_kept(&mut buf, SPECIALS, rejected_chars.as_slice());
    }
    proof {
        let a = class_part(classes, CharClass::Capitals);
        let b = class_part(classes, CharClass::Lowercase);
        let c = class_part(classes, CharClass::Digits);
        let d = class_part(classes, CharClass::Specials);
        assert(Seq::<char>::empty().filter(keep) =~= Seq::<char>::empty());
        Seq::filter_distributes_over_add(a, b, keep);
        Seq::filter_distributes_over_add(a + b, c, keep);
        Seq::filter_distributes_over_add(a + b + c, d, keep);
        assert(buf@ =~= a.filter(keep) + b.filter(keep) + c.filter(keep) + d.filter(keep));
    }
    buf
}

/// The capital letters are the 26 code points from `A` on, in order.
pub proof fn lemma_capitals()
    ensures
        CAPITALS@.len() == 26,
        forall|i: int| 0 <= i < 26 ==> (#[trigger] CAPITALS@[i]) as int == 65 + i,
{
    reveal_strlit("ABCDEFGHIJKLMNOPQRSTUVWXYZ");
}

/// The lowercase letters are the 26 code points from `a` on, in order.
pub proof fn lemma_lowers()
    ensures
        LOWERS@.len() == 26,
        forall|i: int| 0 <= i < 26 ==> (#[trigger] LOWERS@[i]) as int == 97 + i,
{
    reveal_strlit("abcdefghijklmnopqrstuvwxyz");
}

/// The digits are the 10 code points from `0` on, in order.
pub proof fn lemma_numbers()
    ensures
        NUMBERS@.len() == 10,
        forall|i: int| 0 <= i < 10 ==> (#[trigger] NUMBERS@[i]) as int == 48 + i,
{
    reveal_strlit("0123456789");
}

/// The punctuation class, character by character.
pub proof fn lemma_specials()
    ensures
        SPECIALS@ == seq![',', '.', ';', ':', '"', '\'', '!', '%', '#'],
{
    reveal_strlit(",.;:\"'!%#");
    assert(SPECIALS@ =~= seq![',', '.', ';', ':', '"', '\'', '!', '%', '#']);
}

/// Each character of the selected classes stands there once.
proof fn lemma_union_once(classes: CharClasses, i: int)
    requires
        0 <= i < class_union(classes).len(),
    ensures
        forall|j: int|
            0 <= j < class_union(classes).len() && j != i ==> class_union(classes)[j]
                != class_union(classes)[i],
{
    lemma_capitals();
    lemma_lowers();
    lemma_numbers();
    lemma_specials();
    let a = class_part(classes, CharClass::Capitals);
    let b = class_part(classes, CharClass::Lowercase);
    let c = class_part(classes, CharClass::Digits);
    let u = class_union(classes);
    assert forall|j: int| 0 <= j < u.len() && j != i implies u[j] != u[i] by {
        if j < a.len() {
            assert(u[j] == CAPITALS@[j]);
        } else if j < a.len() + b.len() {
            assert(u[j] == LOWERS@[j - a.len()]);
        } else if j < a.len() + b.len() + c.len() {
            assert(u[j] == NUMBERS@[j - a.len() - b.len()]);
        } else {
            assert(u[j] == SPECIALS@[j - a.len() - b.len() - c.len()]);
        }
    }
}

/// The selected classes hold no character twice.
pub proof fn lemma_class_union_distinct(classes: CharClasses)
    ensures
        class_union(classes).no_duplicates(),
{
    let u = class_union(classes);
    assert forall|i: int, j: int| 0 <= i < u.len() && 0 <= j < u.len() && i != j implies u[i]
        != u[j] by {
        lemma_union_once(classes, j);
    }
}

/// A filter keeps an element exactly when the sequence holds it and it passes
/// the test.
proof fn lemma_filter_member(s: Seq<char>, pred: spec_fn(char) -> bool, c: char)
    ensures
        s.filter(pred).contains(c) <==> s.contains(c) && pred(c),
    decreases s.len(),
{
    reveal(Seq::filter);
    if s.len() > 0 {
        let front = s.drop_last();
        let last = s.last();
        lemma_filter_member(front, pred, c);
        assert(s =~= front.push(last));
        let kept_front = front.filter(pred);
        if s.filter(pred).contains(c) {
            let k = choose|k: int| 0 <= k < s.filter(pred).len() && s.filter(pred)[k] == c;
            if k < kept_front.len() {
                assert(kept_front[k] == c);
                assert(kept_front.contains(c));
                let m = choose|m: int| 0 <= m < front.len() && front[m] == c;
                assert(s[m] == c);
            } else {
                assert(c == last);
                assert(s[s.len() - 1] == c);
            }
        }
        if s.contains(c) && pred(c) {
            let m = choose|m: int| 0 <= m < s.len() && s[m] == c;
            if m < front.len() {
                assert(front[m] == c);
                assert(kept_front.contains(c));
                let k = choose|k: int| 0 <= k < kept_front.len() && kept_front[k] == c;
                assert(s.filter(pred)[k] == c);
            } else {
                assert(s.filter(pred)[s.filter(pred).len() - 1] == c);
            }
        }
    }
}

/// A filter keeps no element more often than it stood in the sequence, and
/// leaves fewer elements once one of them fails the test.
proof fn lemma_filter_shape(s: Seq<char>, pred: spec_fn(char) -> bool)
    ensures
        s.no_duplicates() ==> s.filter(pred).no_duplicates(),
        s.filter(pred).len() <= s.len(),
        (exists|i: int| 0 <= i < s.len() && !pred(s[i])) ==> s.filter(pred).len() < s.len(),
    decreases s.len(),
{
    reveal(Seq::filter);
    if s.len() > 0 {
        let front = s.drop_last();
        let last = s.last();
        lemma_filter_shape(front, pred);
        if s.no_duplicates() {
            assert(front.no_duplicates());
            if pred(last) {
                lemma_filter_member(front, pred, last);
                if front.contains(last) {
                    let m = choose|m: int| 0 <= m < front.len() && front[m] == last;
                    assert(s[m] == s[s.len() - 1]);
                }
            }
        }
        if exists|i: int| 0 <= i < s.len() && !pred(s[i]) {
            let i = choose|i: int| 0 <= i < s.len() && !pred(s[i]);
            if i < front.len() {
                assert(!pred(front[i]));
            }
        }
    }
}

/// A filter that every element passes changes nothing.
proof fn lemma_filter_all(s: Seq<char>, pred: spec_fn(char) -> bool)
    requires
        forall|i: int| 0 <= i < s.len() ==> pred(#[trigger] s[i]),
    ensures
        s.filter(pred) == s,
    decreases s.len(),
{
    reveal(Seq::filter);
    if s.len() > 0 {
        lemma_filter_all(s.drop_last(), pred);
        assert(s.drop_last().push(s.last()) =~= s);
    } else {
        assert(s.filter(pred) =~= s);
    }
}

/// A character belongs to the alphabet exactly when a selected class holds it
/// and it is not excluded.
pub proof fn lemma_character_set_members(classes: CharClasses, rejected: Seq<char>)
    ensures
        forall|c: char|
            #[trigger] character_set(classes, rejected).contains(c) <==> class_union(
                classes,
            ).contains(c) && !rejected.contains(c),
{
    assert forall|c: char|
        #[trigger] character_set(classes, rejected).contains(c) <==> class_union(classes).contains(
            c,
        ) && !rejected.contains(c) by {
        lemma_filter_member(class_union(classes), kept(rejected), c);
    }
}

/// No character stands twice in the alphabet.
pub proof fn lemma_character_set_distinct(classes: CharClasses, rejected: Seq<char>)
    ensures
        character_set(classes, rejected).no_duplicates(),
{
    lemma_class_union_distinct(classes);
    lemma_filter_shape(class_union(classes), kept(rejected));
}

/// The alphabet is empty exactly when every character of the selected classes
/// is excluded, which is the case when no class is selected.
pub proof fn lemma_character_set_empty(classes: CharClasses, rejected: Seq<char>)
    ensures
        character_set(classes, rejected).len() == 0 <==> (forall|c: char|
            class_union(classes).contains(c) ==> rejected.contains(c)),
        !classes.capitals && !classes.lowercase && !classes.digits && !classes.specials
            ==> character_set(classes, rejected).len() == 0,
{
    let set = character_set(classes, rejected);
    lemma_character_set_members(classes, rejected);
    lemma_filter_shape(class_union(classes), kept(rejected));
    if set.len() > 0 {
        assert(set.contains(set[0]));
    }
    if exists|c: char| class_union(classes).contains(c) && !rejected.contains(c) {
        let c = choose|c: char| class_union(classes).contains(c) && !rejected.contains(c);
        assert(set.contains(c));
    }
}

/// With nothing excluded the alphabet is the selected classes as they are.
pub proof fn lemma_character_set_unfiltered(classes: CharClasses)
    ensures
        character_set(classes, Seq::empty()) == class_union(classes),
{
    let u = class_union(classes);
    let keep = kept(Seq::empty());
    assert forall|i: int| 0 <= i < u.len() implies keep(#[trigger] u[i]) by {}
    lemma_filter_all(u, keep);
}

/// Excluding every character of a selected class leaves an alphabet that is
/// shorter than the selected classes taken together, and that holds no
/// character of that class.
pub proof fn lemma_excluding_class_shrinks(
    classes: CharClasses,
    class: CharClass,
    rejected: Seq<char>,
)
    requires
        classes.selects(class),
        forall|c: char| class.chars().contains(c) ==> rejected.contains(c),
    ensures
        character_set(classes, rejected).len() < class_union(classes).len(),
        character_set(classes, rejected).len() < character_set(classes, Seq::empty()).len(),
        forall|c: char| class.chars().contains(c) ==> !character_set(classes, rejected).contains(c),
{
    lemma_character_set_unfiltered(classes);
    lemma_character_set_members(classes, rejected);
    let u = class_union(classes);
    let at = lemma_class_start(classes, class);
    assert(class.chars().contains(class.chars()[0]));
    assert(!kept(rejected)(u[at]));
    lemma_filter_shape(u, kept(rejected));
}

/// Where the first character of a selected class stands among the selected
/// classes.
proof fn lemma_class_start(classes: CharClasses, class: CharClass) -> (at: int)
    requires
        classes.selects(class),
    ensures
        0 <= at < class_union(classes).len(),
        class.chars().len() > 0,
        class_union(classes)[at] == class.chars()[0],
{
    lemma_capitals();
    lemma_lowers();
    lemma_numbers();
    lemma_specials();
    let a = class_part(classes, CharClass::Capitals);
    let b = class_part(classes, CharClass::Lowercase);
    let c = class_part(classes, CharClass::Digits);
    match class {
        CharClass::Capitals => 0,
        CharClass::Lowercase => a.len() as int,
        CharClass::Digits => (a.len() + b.len()) as int,
        CharClass::Specials => (a.len() + b.len() + c.len()) as int,
    }
}

} // verus!
