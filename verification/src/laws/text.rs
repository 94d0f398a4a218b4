//! Laws of the small pieces of text.

use vstd::prelude::*;

verus! {

/// The number that `digits` spell, from left to right.
pub open spec fn number(digits: Seq<char>) -> int {
    digits.fold_left(0int, |n: int, c: char| 10 * n + (c as u32 - '0' as u32))
}

/// `digits` spells `n`: digits only, without a leading zero but for zero itself.
pub open spec fn spells(digits: Seq<char>, n: int) -> bool {
    &&& number(digits) == n
    &&& digits.len() > 0
    &&& forall|i: int| 0 <= i < digits.len() ==> '0' <= #[trigger] digits[i] <= '9'
    &&& digits.len() > 1 ==> digits[0] != '0'
}

/// What a decimal spells.
pub proof fn lemma_decimal(n: nat)
    ensures
        spells(crate::text::decimal(n), n as int),
    decreases n,
{
    let d = crate::text::decimal(n);
    let f = |n: int, c: char| 10 * n + (c as u32 - '0' as u32);
    reveal_with_fuel(Seq::fold_left, 2);
    if n < 10 {
        assert(d.drop_last() =~= Seq::empty());
    } else {
        lemma_decimal(n / 10);
        let front = crate::text::decimal(n / 10);
        assert(d.drop_last() =~= front);
        assert(d.fold_left(0int, f) == f(front.fold_left(0int, f), d.last()));
        if front.len() == 1 {
            assert(front[0] != '0') by {
                if front[0] == '0' {
                    assert(number(front) == 0) by {
                        assert(front.drop_last() =~= Seq::empty());
                    }
                }
            }
        }
    }
}

/// A number in decimal spells the number.
pub proof fn decimals_spell_their_number(n: u64, text: String)
    requires
        call_ensures(crate::text::decimal_text, (n,), text),
    ensures
        spells(text@, n as int),
{
    lemma_decimal(n as nat);
}

/// Joined texts stand one after the other.
pub proof fn joined_texts_follow_each_other(a: &str, b: &str, text: String)
    requires
        call_ensures(crate::text::joined, (a, b), text),
    ensures
        text@.len() == a@.len() + b@.len(),
        text@.subrange(0, a@.len() as int) == a@,
        text@.subrange(a@.len() as int, text@.len() as int) == b@,
{
    assert(text@.subrange(0, a@.len() as int) =~= a@);
    assert(text@.subrange(a@.len() as int, text@.len() as int) =~= b@);
}

} // verus!
