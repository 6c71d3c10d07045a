//! Text helpers: decimal numbers and substring search.

use vstd::prelude::*;
use vstd::string::StringExecFns;

verus! {

/// The character that writes the digit `d`.
pub open spec fn digit_char(d: nat) -> char {
    if d == 0 {
        '0'
    } else if d == 1 {
        '1'
    } else if d == 2 {
        '2'
    } else if d == 3 {
        '3'
    } else if d == 4 {
        '4'
    } else if d == 5 {
        '5'
    } else if d == 6 {
        '6'
    } else if d == 7 {
        '7'
    } else if d == 8 {
        '8'
    } else {
        '9'
    }
}

/// `n` written in decimal, without leading zeros.
pub open spec fn decimal_digits(n: nat) -> Seq<char>
    decreases n,
{
    if n < 10 {
        seq![digit_char(n)]
    } else {
        decimal_digits(n / 10).push(digit_char(n % 10))
    }
}

/// Whether `needle` occurs in `haystack` at `at`.
pub open spec fn occurs_at(haystack: Seq<char>, needle: Seq<char>, at: int) -> bool {
    &&& 0 <= at
    &&& at + needle.len() <= haystack.len()
    &&& haystack.subrange(at, at + needle.len()) == needle
}

/// Whether `needle` occurs somewhere in `haystack`.
pub open spec fn contains_text(haystack: Seq<char>, needle: Seq<char>) -> bool {
    exists|at: int| occurs_at(haystack, needle, at)
}

/// The text of one digit.
fn digit_text(d: u32) -> (text: &'static str)
    requires
        d < 10,
    ensures
        text@ == seq![digit_char(d as nat)],
{
    proof {
        reveal_strlit("0");
        reveal_strlit("1");
        reveal_strlit("2");
        reveal_strlit("3");
        reveal_strlit("4");
        reveal_strlit("5");
        reveal_strlit("6");
        reveal_strlit("7");
        reveal_strlit("8");
        reveal_strlit("9");
    }
    let text: &'static str = if d == 0 {
        "0"
    } else if d == 1 {
        "1"
    } else if d == 2 {
        "2"
    } else if d == 3 {
        "3"
    } else if d == 4 {
        "4"
    } else if d == 5 {
        "5"
    } else if d == 6 {
        "6"
    } else if d == 7 {
        "7"
    } else if d == 8 {
        "8"
    } else {
        "9"
    };
    assert(text@ =~= seq![digit_char(d as nat)]);
    text
}

/// `n` written in decimal.
pub fn decimal(n: u32) -> (text: String)
    ensures
        text@ == decimal_digits(n as nat),
    decreases n,
{
    if n < 10 {
        digit_text(n).to_owned()
    } else {
        let mut text: String = decimal(n / 10);
        let last: &'static str = digit_text(n % 10);
        text.append(last);
        assert(text@ =~= decimal_digits(n as nat));
        text
    }
}

/// Whether `needle` occurs somewhere in `haystack`.
pub fn contains(haystack: &str, needle: &str) -> (found: bool)
    ensures
        found == contains_text(haystack@, needle@),
{
    let hay_len: usize = haystack.unicode_len();
    let needle_len: usize = needle.unicode_len();
    if needle_len > hay_len {
        assert forall|at: int| !occurs_at(haystack@, needle@, at) by {}
        return false;
    }
    let last_start: usize = hay_len - needle_len;
    let mut at: usize = 0;
    while at <= last_start
        invariant
            hay_len == haystack@.len(),
            needle_len == needle@.len(),
            last_start == hay_len - needle_len,
            at <= last_start + 1,
            forall|earlier: int| 0 <= earlier < at ==> !occurs_at(haystack@, needle@, earlier),
        decreases last_start + 1 - at,
    {
        let mut k: usize = 0;
        while k < needle_len && haystack.get_char(at + k) == needle.get_char(k)
            invariant
                hay_len == haystack@.len(),
                needle_len == needle@.len(),
                at + needle_len <= hay_len,
                k <= needle_len,
                forall|j: int| 0 <= j < k ==> haystack@[at + j] == needle@[j],
            decreases needle_len - k,
        {
            k += 1;
        }
        if k == needle_len {
            proof {
                assert(haystack@.subrange(at as int, at + needle_len) =~= needle@);
                assert(occurs_at(haystack@, needle@, at as int));
            }
            return true;
        }
        proof {
            let window = haystack@.subrange(at as int, at + needle_len);
            assert(window[k as int] == haystack@[at + k]);
            assert(!occurs_at(haystack@, needle@, at as int));
        }
        at += 1;
    }
    assert forall|start: int| !occurs_at(haystack@, needle@, start) by {}
    false
}

} // verus!
