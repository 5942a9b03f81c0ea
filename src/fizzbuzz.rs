//! FizzBuzz: the word said for each number.
use vstd::prelude::*;

use crate::text::{decimal, decimal_string};

verus! {

/// `Fizz` for multiples of 3, `Buzz` for multiples of 5, `FizzBuzz` for
/// multiples of both, else the number itself.
pub open spec fn fizzbuzz_spec(i: nat) -> Seq<char> {
    if i % 15 == 0 {
        "FizzBuzz"@
    } else if i % 3 == 0 {
        "Fizz"@
    } else if i % 5 == 0 {
        "Buzz"@
    } else {
        decimal(i)
    }
}

/// The words of the rules (3, `Fizz`), (5, `Buzz`), (7, `Bazz`) whose divisor
/// divides `i`, in that order, or the number itself where none does.
pub open spec fn extended_spec(i: nat) -> Seq<char> {
    let words = (if i % 3 == 0 { "Fizz"@ } else { Seq::empty() }) + (if i % 5 == 0 {
        "Buzz"@
    } else {
        Seq::empty()
    }) + (if i % 7 == 0 { "Bazz"@ } else { Seq::empty() });
    if words.len() == 0 {
        decimal(i)
    } else {
        words
    }
}

pub fn fizzbuzz_word(i: u32) -> (r: String)
    ensures
        r@ == fizzbuzz_spec(i as nat),
{
    if i % 15 == 0 {
        String::from_str("FizzBuzz")
    } else if i % 3 == 0 {
        String::from_str("Fizz")
    } else if i % 5 == 0 {
        String::from_str("Buzz")
    } else {
        decimal_string(i as u64)
    }
}

pub fn extended_word(i: u32) -> (r: String)
    ensures
        r@ == extended_spec(i as nat),
{
    let mut words = String::new();
    if i % 3 == 0 {
        words.append("Fizz");
    }
    if i % 5 == 0 {
        words.append("Buzz");
    }
    if i % 7 == 0 {
        words.append("Bazz");
    }
    proof {
        reveal_strlit("Fizz");
        reveal_strlit("Buzz");
        reveal_strlit("Bazz");
    }
    let none = i % 3 != 0 && i % 5 != 0 && i % 7 != 0;
    assert(none ==> words@ =~= Seq::<char>::empty());
    assert(!none ==> words@.len() > 0);
    if none {
        decimal_string(i as u64)
    } else {
        words
    }
}

/// The words for 1 through `n`, in order.
pub fn fizzbuzz_words(n: u32) -> (r: Vec<String>)
    ensures
        r@.len() == n,
        forall|k: int| 0 <= k < n ==> #[trigger] r@[k]@ == fizzbuzz_spec((k + 1) as nat),
{
    let mut out: Vec<String> = Vec::new();
    let mut i: u32 = 0;
    while i < n
        invariant
            i <= n,
            out@.len() == i,
            forall|k: int| 0 <= k < i ==> #[trigger] out@[k]@ == fizzbuzz_spec((k + 1) as nat),
        decreases n - i,
    {
        out.push(fizzbuzz_word(i + 1));
        i += 1;
    }
    out
}

} // verus!
