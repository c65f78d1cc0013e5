//! Text that is put together from parts, and how it is compared.

use vstd::prelude::*;
use vstd::string::*;

verus! {

/// The character of a decimal digit.
pub open spec fn digit(n: nat) -> char {
    if n == 0 {
        '0'
    } else if n == 1 {
        '1'
    } else if n == 2 {
        '2'
    } else if n == 3 {
        '3'
    } else if n == 4 {
        '4'
    } else if n == 5 {
        '5'
    } else if n == 6 {
        '6'
    } else if n == 7 {
        '7'
    } else if n == 8 {
        '8'
    } else {
        '9'
    }
}

/// A natural number in decimal.
pub open spec fn decimal(n: nat) -> Seq<char>
    decreases n,
{
    if n < 10 {
        seq![digit(n)]
    } else {
        decimal(n / 10).push(digit(n % 10))
    }
}

/// Writes a number at the end of a text, in decimal.
pub fn push_decimal(out: &mut String, n: usize)
    ensures
        final(out)@ == old(out)@ + decimal(n as nat),
    decreases n,
{
    if n >= 10 {
        push_decimal(out, n / 10);
    }
    let last = n % 10;
    proof {
        reveal_strlit("0");
        reveal_strlit("1");
        reveal_strlit("2");
        reveal_strlit("3");
        reveal_strlit("4");
        reveal_strlit("5");
        reveal_strlit("6");
        reveal_strlit("7");
        reveal_strlit("8");
        reveal_strlit("9");
    }
    let text = match last {
        0 => "0",
        1 => "1",
        2 => "2",
        3 => "3",
        4 => "4",
        5 => "5",
        6 => "6",
        7 => "7",
        8 => "8",
        _ => "9",
    };
    assert(text@ =~= seq![digit(last as nat)]);
    out.append(text);
    assert(out@ =~= old(out)@ + decimal(n as nat));
}

/// A letter without its case, if it is one of the Latin alphabet.
pub open spec fn lowered(c: char) -> char {
    if 'A' <= c <= 'Z' {
        (c as u8 + 32) as u8 as char
    } else {
        c
    }
}

/// Two texts are the same but for the case of Latin letters.
pub open spec fn same_but_case(a: Seq<char>, b: Seq<char>) -> bool {
    &&& a.len() == b.len()
    &&& forall|i: int| 0 <= i < a.len() ==> lowered(#[trigger] a[i]) == lowered(b[i])
}

fn lower(c: char) -> (r: char)
    ensures
        r == lowered(c),
{
    if 'A' <= c && c <= 'Z' {
        (c as u8 + 32) as char
    } else {
        c
    }
}

/// Whether two texts are the same but for the case of Latin letters.
pub fn equal_but_case(a: &str, b: &str) -> (r: bool)
    ensures
        r == same_but_case(a@, b@),
{
    let count = a.unicode_len();
    if b.unicode_len() != count {
        return false;
    }
    let mut i: usize = 0;
    while i < count
        invariant
            count == a@.len(),
            count == b@.len(),
            i <= count,
            forall|j: int| 0 <= j < i ==> lowered(#[trigger] a@[j]) == lowered(b@[j]),
        decreases count - i,
    {
        if lower(a.get_char(i)) != lower(b.get_char(i)) {
            return false;
        }
        i = i + 1;
    }
    true
}

/// The number that a text of decimal digits stands for.
pub open spec fn reading(text: Seq<char>) -> int
    decreases text.len(),
{
    if text.len() == 0 {
        0
    } else {
        10 * reading(text.drop_last()) + (text.last() as int - '0' as int)
    }
}

/// A number in decimal reads back as the number. It is made of digits alone and
/// starts with a zero only if it is the zero.
pub proof fn law_decimal_reads_back(n: nat)
    ensures
        reading(decimal(n)) == n,
        decimal(n).len() > 0,
        forall|i: int| 0 <= i < decimal(n).len() ==> '0' <= #[trigger] decimal(n)[i] <= '9',
        decimal(n)[0] == '0' <==> n == 0,
    decreases n,
{
    reveal_with_fuel(reading, 2);
    if n < 10 {
        assert(decimal(n).drop_last() =~= seq![]);
    } else {
        law_decimal_reads_back(n / 10);
        assert(decimal(n).drop_last() =~= decimal(n / 10));
    }
}

/// Two characters are the same, or a capital and a small one of the same Latin
/// letter.
pub open spec fn same_letter(a: char, b: char) -> bool {
    ||| a == b
    ||| 'A' <= a <= 'Z' && b as int == a as int + 32
    ||| 'A' <= b <= 'Z' && a as int == b as int + 32
}

/// Texts that are the same but for case are equally long and have the same letter at
/// every place, and texts of which that holds are the same but for case.
pub proof fn law_same_but_case_at_every_place(a: Seq<char>, b: Seq<char>)
    ensures
        same_but_case(a, b) <==> a.len() == b.len() && forall|i: int|
            0 <= i < a.len() ==> same_letter(#[trigger] a[i], b[i]),
{
    assert forall|x: char, y: char| #[trigger] same_letter(x, y) <==> lowered(x) == lowered(y) by {
        lemma_lowered(x);
        lemma_lowered(y);
    }
    if same_but_case(a, b) {
        assert forall|i: int| 0 <= i < a.len() implies same_letter(#[trigger] a[i], b[i]) by {
            assert(lowered(a[i]) == lowered(b[i]));
        }
    }
    if a.len() == b.len() && forall|i: int|
        0 <= i < a.len() ==> same_letter(#[trigger] a[i], b[i]) {
        assert forall|i: int| 0 <= i < a.len() implies lowered(#[trigger] a[i]) == lowered(b[i]) by {
            assert(same_letter(a[i], b[i]));
        }
    }
}

proof fn lemma_lowered(c: char)
    ensures
        lowered(c) as int == if 'A' <= c <= 'Z' {
            c as int + 32
        } else {
            c as int
        },
{
}

/// Texts without capitals are the same but for case only if they are equal.
pub proof fn law_small_letters_tell_apart(a: Seq<char>, b: Seq<char>)
    requires
        same_but_case(a, b),
        forall|i: int| 0 <= i < a.len() ==> !('A' <= #[trigger] a[i] <= 'Z'),
        forall|i: int| 0 <= i < b.len() ==> !('A' <= #[trigger] b[i] <= 'Z'),
    ensures
        a == b,
{
    law_same_but_case_at_every_place(a, b);
    assert forall|i: int| 0 <= i < a.len() implies a[i] == b[i] by {
        assert(same_letter(a[i], b[i]));
    }
    assert(a =~= b);
}

/// A number is written behind what a text holds already, and reads back from there.
pub proof fn law_number_is_written_behind_the_text(out: &mut String, n: usize)
    requires
        call_ensures(push_decimal, (out, n), ()),
    ensures
        ({
            let kept = old(out)@.len() as int;
            let all = final(out)@.len() as int;
            &&& kept < all
            &&& final(out)@.subrange(0, kept) == old(out)@
            &&& reading(final(out)@.subrange(kept, all)) == n
            &&& final(out)@[kept] == '0' <==> n == 0
        }),
{
    law_decimal_reads_back(n as nat);
    let kept = old(out)@.len() as int;
    assert(final(out)@.subrange(0, kept) =~= old(out)@);
    assert(final(out)@.subrange(kept, final(out)@.len() as int) =~= decimal(n as nat));
}

/// Two texts are found the same but for case just when they are equally long and have the
/// same letter at every place.
pub proof fn law_texts_are_compared_to_the_end(a: &str, b: &str, same: bool)
    requires
        call_ensures(equal_but_case, (a, b), same),
    ensures
        same <==> a@.len() == b@.len() && forall|i: int|
            0 <= i < a@.len() ==> same_letter(#[trigger] a@[i], b@[i]),
{
    law_same_but_case_at_every_place(a@, b@);
}

} // verus!
