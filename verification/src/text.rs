//! Text helpers: comparing two strings and trimming what follows an amount.

use vstd::prelude::*;
use vstd::std_specs::iter::IteratorSpec;
use vstd::utf8::*;

verus! {

/// Whether two strings hold the same characters.
pub fn text_equal(a: &str, b: &str) -> (same: bool)
    ensures
        same == (a@ == b@),
{
    let x = a.as_bytes();
    let y = b.as_bytes();
    proof {
        encode_utf8_decode_utf8(a@);
        encode_utf8_decode_utf8(b@);
    }
    if x.len() != y.len() {
        return false;
    }
    let mut i: usize = 0;
    while i < x.len()
        invariant
            i <= x.len(),
            x.len() == y.len(),
            x@ == encode_utf8(a@),
            y@ == encode_utf8(b@),
            forall|k: int| 0 <= k < i ==> x@[k] == y@[k],
        decreases x.len() - i,
    {
        if x[i] != y[i] {
            return false;
        }
        i += 1;
    }
    assert(x@ =~= y@);
    true
}

/// The characters an amount may end with: the ASCII digits and the decimal point.
pub open spec fn is_amount_char(c: char) -> bool {
    c == '.' || ('0' <= c && c <= '9')
}

/// How many leading characters of `s` remain once everything behind its last
/// amount character has been cut off; zero where it holds no amount character.
pub open spec fn amount_len(s: Seq<char>) -> nat
    decreases s.len(),
{
    if s.len() == 0 {
        0
    } else if is_amount_char(s.last()) {
        s.len()
    } else {
        amount_len(s.drop_last())
    }
}

/// `s` without its trailing run of characters that are no amount characters.
pub open spec fn without_currency(s: Seq<char>) -> Seq<char> {
    s.take(amount_len(s) as int)
}

/// Cutting off what follows an amount removes a run at the end of the text,
/// and nothing else: what remains is the start of the text; no character that
/// was removed is a digit or a decimal point; and the run is as long as it can
/// be, so that what remains is empty or ends with a digit or a decimal point.
pub proof fn lemma_without_currency(s: Seq<char>)
    ensures
        amount_len(s) <= s.len(),
        without_currency(s) == s.take(amount_len(s) as int),
        without_currency(s).len() == amount_len(s),
        forall|i: int| amount_len(s) <= i < s.len() ==> !is_amount_char(#[trigger] s[i]),
        amount_len(s) > 0 ==> is_amount_char(s[amount_len(s) - 1]),
    decreases s.len(),
{
    if s.len() > 0 && !is_amount_char(s.last()) {
        let shorter = s.drop_last();
        lemma_without_currency(shorter);
        assert forall|i: int| amount_len(s) <= i < s.len() implies !is_amount_char(
            #[trigger] s[i],
        ) by {
            if i < shorter.len() {
                assert(shorter[i] == s[i]);
            }
        }
        assert(s.take(amount_len(s) as int) =~= shorter.take(amount_len(shorter) as int));
    }
}

/// A text that is empty or ends with a digit or a decimal point has nothing
/// to cut off, so cutting twice is the same as cutting once.
pub proof fn lemma_without_currency_fixed(s: Seq<char>)
    ensures
        s.len() == 0 || is_amount_char(s.last()) ==> without_currency(s) == s,
        without_currency(without_currency(s)) == without_currency(s),
{
    lemma_without_currency(s);
    if s.len() == 0 || is_amount_char(s.last()) {
        assert(s.take(s.len() as int) =~= s);
    }
    let cut = without_currency(s);
    if cut.len() > 0 {
        assert(cut.last() == s[amount_len(s) - 1]);
    }
    assert(cut.take(cut.len() as int) =~= cut);
}

/// Whether `c` is an ASCII digit or the decimal point.
pub fn amount_char(c: char) -> (yes: bool)
    ensures
        yes == is_amount_char(c),
{
    c == '.' || ('0' <= c && c <= '9')
}

/// Cuts a trailing currency sign or unit off an amount: removes the characters
/// at the end of `text` up to, and not including, the last digit or decimal point.
pub fn strip_trailing_currency(text: &str) -> (amount: String)
    ensures
        amount@ == without_currency(text@),
{
    let total = text.unicode_len();
    let mut rest = text.chars();
    let mut seen: usize = 0;
    let mut keep: usize = 0;
    loop
        invariant
            total == text@.len(),
            seen <= total,
            keep <= seen,
            rest.obeys_prophetic_iter_laws(),
            rest.remaining() == text@.skip(seen as int),
            keep == amount_len(text@.take(seen as int)),
        ensures
            keep == amount_len(text@),
            keep <= text@.len(),
        decreases total - seen,
    {
        match rest.next() {
            Some(c) => {
                proof {
                    assert(text@.take(seen + 1).drop_last() =~= text@.take(seen as int));
                    assert(text@.skip(seen as int).drop_first() =~= text@.skip(seen + 1));
                }
                seen = seen + 1;
                if amount_char(c) {
                    keep = seen;
                }
            },
            None => {
                proof {
                    assert(text@.take(seen as int) =~= text@);
                }
                break ;
            },
        }
    }
    text.substring_char(0, keep).to_owned()
}

} // verus!
