//! Low-level scanning primitives: maximal runs of characters from a class,
//! first occurrence of a character, and whole-string comparison, each as a
//! spec function with an executable counterpart proved against it.

use vstd::prelude::*;

use crate::chars::ascii_ws;
use crate::chars::eq_ignore_case;
use crate::chars::is_ascii_ws;
use crate::chars::lower_char;
use crate::chars::to_lower_char;

verus! {

/// Length of the longest prefix of `s` whose characters all satisfy `pred`.
pub open spec fn take_while_len(pred: spec_fn(char) -> bool, s: Seq<char>) -> nat
    decreases s.len(),
{
    if s.len() == 0 || !pred(s[0]) {
        0
    } else {
        (1 + take_while_len(pred, s.skip(1))) as nat
    }
}

/// `take_while_len` equals the first index whose character fails `pred`
/// (or the whole length, if none fails).
pub proof fn lemma_take_while_len(pred: spec_fn(char) -> bool, s: Seq<char>, i: int)
    requires
        0 <= i <= s.len(),
        forall|j: int| 0 <= j < i ==> pred(s[j]),
        i < s.len() ==> !pred(s[i]),
    ensures
        take_while_len(pred, s) == i,
    decreases i,
{
    if i == 0 {
    } else {
        assert(pred(s[0]));
        assert forall|j: int| 0 <= j < i - 1 implies pred(s.skip(1)[j]) by {
            assert(s.skip(1)[j] == s[j + 1]);
        }
        assert(i - 1 < s.skip(1).len() ==> !pred(s.skip(1)[i - 1])) by {
            if i - 1 < s.skip(1).len() {
                assert(s.skip(1)[i - 1] == s[i]);
            }
        }
        lemma_take_while_len(pred, s.skip(1), i - 1);
    }
}

/// What holds of `take_while_len` without knowing its value: it is within
/// bounds, every character before it satisfies `pred`, and the character at
/// it (if any) does not.
pub proof fn lemma_take_while_len_facts(pred: spec_fn(char) -> bool, s: Seq<char>)
    ensures
        take_while_len(pred, s) <= s.len(),
        forall|j: int| 0 <= j < take_while_len(pred, s) ==> pred(s[j]),
        take_while_len(pred, s) < s.len() ==> !pred(s[take_while_len(pred, s) as int]),
    decreases s.len(),
{
    if s.len() == 0 || !pred(s[0]) {
    } else {
        lemma_take_while_len_facts(pred, s.skip(1));
        assert forall|j: int| 0 <= j < take_while_len(pred, s) implies pred(s[j]) by {
            if j > 0 {
                assert(pred(s.skip(1)[j - 1]));
                assert(s.skip(1)[j - 1] == s[j]);
            }
        }
        let n = take_while_len(pred, s) as int;
        if n < s.len() {
            assert(s.skip(1)[n - 1] == s[n]);
        }
    }
}

/// Index of the first occurrence of `c` in `s`, if any.
pub open spec fn find_char(s: Seq<char>, c: char) -> Option<nat>
    decreases s.len(),
{
    if s.len() == 0 {
        None
    } else if s[0] == c {
        Some(0nat)
    } else {
        match find_char(s.skip(1), c) {
            Some(i) => Some((i + 1) as nat),
            None => None,
        }
    }
}

/// If `s[i] == c` and no earlier character equals `c`, the first occurrence
/// is at `i`.
pub proof fn lemma_find_char_found(s: Seq<char>, c: char, i: int)
    requires
        0 <= i < s.len(),
        s[i] == c,
        forall|j: int| 0 <= j < i ==> s[j] != c,
    ensures
        find_char(s, c) == Some(i as nat),
    decreases i,
{
    if i == 0 {
    } else {
        assert(s[0] != c);
        assert(s.skip(1)[i - 1] == s[i]);
        assert forall|j: int| 0 <= j < i - 1 implies s.skip(1)[j] != c by {
            assert(s.skip(1)[j] == s[j + 1]);
        }
        lemma_find_char_found(s.skip(1), c, i - 1);
    }
}

/// If no character of `s` equals `c`, there is no occurrence.
pub proof fn lemma_find_char_none(s: Seq<char>, c: char)
    requires
        forall|j: int| 0 <= j < s.len() ==> s[j] != c,
    ensures
        find_char(s, c) is None,
    decreases s.len(),
{
    if s.len() == 0 {
    } else {
        assert forall|j: int| 0 <= j < s.skip(1).len() implies s.skip(1)[j] != c by {
            assert(s.skip(1)[j] == s[j + 1]);
        }
        lemma_find_char_none(s.skip(1), c);
    }
}

/// What holds of `find_char` without knowing its value: a found index is in
/// bounds, holds `c`, and nothing before it does; `None` means no character
/// equals `c`.
pub proof fn lemma_find_char_facts(s: Seq<char>, c: char)
    ensures
        match find_char(s, c) {
            Some(i) => i < s.len() && s[i as int] == c && forall|j: int| 0 <= j < i ==> s[j] != c,
            None => forall|j: int| 0 <= j < s.len() ==> s[j] != c,
        },
    decreases s.len(),
{
    if s.len() == 0 {
    } else if s[0] == c {
    } else {
        lemma_find_char_facts(s.skip(1), c);
        assert forall|j: int| 1 <= j < s.len() implies s[j] == s.skip(1)[j - 1] by {
            assert(s.skip(1)[j - 1] == s[j]);
        }
    }
}

/// First occurrence of `c` in `input` at or after position `from`.
pub fn find_char_from(input: &str, from: usize, c: char) -> (r: Option<usize>)
    requires
        from <= input@.len(),
    ensures
        match r {
            Some(i) => from <= i < input@.len() && input@[i as int] == c && find_char(
                input@.skip(from as int),
                c,
            ) == Some((i - from) as nat),
            None => find_char(input@.skip(from as int), c) is None,
        },
{
    let len = input.unicode_len();
    let mut i = from;
    while i < len
        invariant
            from <= i <= len,
            len == input@.len(),
            forall|j: int| from <= j < i ==> input@[j] != c,
        decreases len - i,
    {
        if input.get_char(i) == c {
            proof {
                let sub = input@.skip(from as int);
                assert forall|j: int| 0 <= j < i - from implies sub[j] != c by {
                    assert(sub[j] == input@[j + from]);
                }
                assert(sub[i - from] == input@[i as int]);
                lemma_find_char_found(sub, c, i - from);
            }
            return Some(i);
        }
        i = i + 1;
    }
    proof {
        let sub = input@.skip(from as int);
        assert forall|j: int| 0 <= j < sub.len() implies sub[j] != c by {
            assert(sub[j] == input@[j + from]);
        }
        lemma_find_char_none(sub, c);
    }
    None
}

/// Length of the run of ASCII whitespace in `input` starting at `from`.
pub fn scan_ws(input: &str, from: usize) -> (r: usize)
    requires
        from <= input@.len(),
    ensures
        from <= r <= input@.len(),
        r - from == take_while_len(|c: char| is_ascii_ws(c), input@.skip(from as int)),
{
    let len = input.unicode_len();
    let mut i = from;
    while i < len && ascii_ws(input.get_char(i))
        invariant
            from <= i <= len,
            len == input@.len(),
            forall|j: int| from <= j < i ==> is_ascii_ws(input@[j]),
        decreases len - i,
    {
        i = i + 1;
    }
    proof {
        let sub = input@.skip(from as int);
        assert forall|j: int| 0 <= j < i - from implies (|c: char| is_ascii_ws(c))(sub[j]) by {
            assert(sub[j] == input@[j + from]);
        }
        if i < len {
            assert(sub[i - from] == input@[i as int]);
        }
        lemma_take_while_len(|c: char| is_ascii_ws(c), sub, i - from);
    }
    i
}

/// Whether `a` and `b` hold the same characters.
pub fn str_eq(a: &str, b: &str) -> (r: bool)
    ensures
        r == (a@ == b@),
{
    let alen = a.unicode_len();
    let blen = b.unicode_len();
    if alen != blen {
        return false;
    }
    let mut i: usize = 0;
    while i < alen
        invariant
            0 <= i <= alen,
            alen == a@.len(),
            alen == b@.len(),
            forall|j: int| 0 <= j < i ==> a@[j] == b@[j],
        decreases alen - i,
    {
        if a.get_char(i) != b.get_char(i) {
            return false;
        }
        i = i + 1;
    }
    proof {
        assert(a@ =~= b@);
    }
    true
}

/// Whether `a` and `b` hold the same characters up to ASCII case.
pub fn str_eq_ignore_case(a: &str, b: &str) -> (r: bool)
    ensures
        r == eq_ignore_case(a@, b@),
{
    let alen = a.unicode_len();
    let blen = b.unicode_len();
    if alen != blen {
        return false;
    }
    let mut i: usize = 0;
    while i < alen
        invariant
            0 <= i <= alen,
            alen == a@.len(),
            alen == b@.len(),
            forall|j: int| 0 <= j < i ==> lower_char(a@[j]) == lower_char(b@[j]),
        decreases alen - i,
    {
        if to_lower_char(a.get_char(i)) != to_lower_char(b.get_char(i)) {
            return false;
        }
        i = i + 1;
    }
    true
}

} // verus!
