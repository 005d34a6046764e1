//! Small verified string helpers: equality of string slices and
//! fixed-width decimal digit parsing.

use vstd::prelude::*;
use vstd::string::StrSliceExecFns;

verus! {

/// Character-wise string equality, tied to view equality.
pub fn str_eq(a: &str, b: &str) -> (r: bool)
    ensures
        r == (a@ == b@),
{
    let la = a.unicode_len();
    let lb = b.unicode_len();
    if la != lb {
        return false;
    }
    let mut i: usize = 0;
    while i < la
        invariant
            la as nat == a@.len(),
            lb as nat == b@.len(),
            la == lb,
            0 <= i <= la,
            forall|k: int| 0 <= k < i ==> a@[k] == b@[k],
        decreases la - i,
    {
        if a.get_char(i) != b.get_char(i) {
            return false;
        }
        i = i + 1;
    }
    proof {
        assert(a@ =~= b@);
    }
    true
}

pub open spec fn is_digit(c: char) -> bool {
    48 <= c as int <= 57
}

pub open spec fn digit_val(c: char) -> int {
    c as int - 48
}

pub open spec fn all_digits(s: Seq<char>) -> bool {
    forall|i: int| 0 <= i < s.len() ==> is_digit(#[trigger] s[i])
}

/// The number denoted by a sequence of decimal digits (most
/// significant first; empty denotes 0).
pub open spec fn digits_val(s: Seq<char>) -> int
    decreases s.len(),
{
    if s.len() == 0 {
        0
    } else {
        digits_val(s.drop_last()) * 10 + digit_val(s.last())
    }
}

pub open spec fn pow10(n: nat) -> int
    decreases n,
{
    if n == 0 {
        1
    } else {
        10 * pow10((n - 1) as nat)
    }
}

pub proof fn lemma_pow10_pos(n: nat)
    ensures
        pow10(n) >= 1,
    decreases n,
{
    if n > 0 {
        lemma_pow10_pos((n - 1) as nat);
    }
}

pub proof fn lemma_pow10_mono(a: nat, b: nat)
    requires
        a <= b,
    ensures
        pow10(a) <= pow10(b),
    decreases b,
{
    if a < b {
        lemma_pow10_mono(a, (b - 1) as nat);
        lemma_pow10_pos((b - 1) as nat);
    }
}

pub proof fn lemma_digits_val_bound(s: Seq<char>)
    requires
        all_digits(s),
    ensures
        0 <= digits_val(s) < pow10(s.len()),
    decreases s.len(),
{
    if s.len() > 0 {
        assert(all_digits(s.drop_last()));
        lemma_digits_val_bound(s.drop_last());
        assert(is_digit(s.last()));
    }
}

/// Parse the characters `[from, to)` of `s` as an unsigned decimal
/// number; `None` exactly when one of them is not a digit.
pub fn parse_digits(s: &str, from: usize, to: usize) -> (r: Option<u32>)
    requires
        from <= to <= s@.len(),
        to - from <= 8,
    ensures
        r is Some <==> all_digits(s@.subrange(from as int, to as int)),
        r is Some ==> r->Some_0 as int == digits_val(s@.subrange(from as int, to as int)),
{
    let mut acc: u32 = 0;
    let mut i: usize = from;
    while i < to
        invariant
            from <= i <= to <= s@.len(),
            to - from <= 8,
            all_digits(s@.subrange(from as int, i as int)),
            acc as int == digits_val(s@.subrange(from as int, i as int)),
            (acc as int) < pow10((i - from) as nat),
        decreases to - i,
    {
        let c = s.get_char(i);
        let code = c as u32;
        if code < 48 || code > 57 {
            proof {
                assert(s@.subrange(from as int, to as int)[i - from] == s@[i as int]);
            }
            return None;
        }
        proof {
            lemma_pow10_mono(((i - from) as nat), 7);
            reveal_with_fuel(pow10, 9);
            let prev = s@.subrange(from as int, i as int);
            let cur = s@.subrange(from as int, i as int + 1);
            assert(cur.drop_last() =~= prev);
            assert(cur.last() == s@[i as int]);
            lemma_digits_val_bound(cur);
        }
        acc = acc * 10 + (code - 48);
        i = i + 1;
    }
    proof {
        assert(s@.subrange(from as int, i as int) =~= s@.subrange(from as int, to as int));
    }
    Some(acc)
}

/// What remains of a string after its last '@': the whole string when
/// none occurs. Used to redact the credentials part of a store URL.
pub open spec fn suffix_after_last_at(s: Seq<char>) -> Seq<char>
    decreases s.len(),
{
    if s.len() == 0 {
        s
    } else if s.last() == '@' {
        Seq::empty()
    } else {
        suffix_after_last_at(s.drop_last()).push(s.last())
    }
}

proof fn lemma_suffix_no_at(s: Seq<char>)
    requires
        forall|j: int| 0 <= j < s.len() ==> s[j] != '@',
    ensures
        suffix_after_last_at(s) == s,
    decreases s.len(),
{
    if s.len() > 0 {
        lemma_suffix_no_at(s.drop_last());
        assert(suffix_after_last_at(s) =~= s);
    }
}

proof fn lemma_suffix_at(s: Seq<char>, k: int)
    requires
        0 <= k < s.len(),
        s[k] == '@',
        forall|j: int| k < j < s.len() ==> s[j] != '@',
    ensures
        suffix_after_last_at(s) == s.subrange(k + 1, s.len() as int),
    decreases s.len(),
{
    if k == s.len() - 1 {
        assert(suffix_after_last_at(s) =~= s.subrange(k + 1, s.len() as int));
    } else {
        lemma_suffix_at(s.drop_last(), k);
        assert(suffix_after_last_at(s) =~= s.subrange(k + 1, s.len() as int));
    }
}

/// Keep only what follows the last '@' of a store URL, dropping any
/// credentials before it; a URL without '@' passes through whole.
pub fn sanitize_redis_url(url: &str) -> (r: String)
    ensures
        r@ == suffix_after_last_at(url@),
{
    let n = url.unicode_len();
    let mut last_at: Option<usize> = None;
    let mut i: usize = 0;
    while i < n
        invariant
            n as nat == url@.len(),
            0 <= i <= n,
            match last_at {
                Some(k) => k < i && url@[k as int] == '@' && forall|j: int|
                    (k as int) < j < i as int ==> url@[j] != '@',
                None => forall|j: int| 0 <= j < i as int ==> url@[j] != '@',
            },
        decreases n - i,
    {
        if url.get_char(i) == '@' {
            last_at = Some(i);
        }
        i = i + 1;
    }
    match last_at {
        Some(k) => {
            proof {
                lemma_suffix_at(url@, k as int);
            }
            let tail = url.substring_char(k + 1, n);
            tail.to_owned()
        },
        None => {
            proof {
                lemma_suffix_no_at(url@);
            }
            url.to_owned()
        },
    }
}

} // verus!
