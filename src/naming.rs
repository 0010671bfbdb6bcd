use vstd::prelude::*;

use crate::content_guard::{file_stem, stem};
use crate::error::FsError;
use crate::path_guard::{result_view, views};

verus! {

/// How many suffixed candidates are tried before giving up.
pub const MAX_NAME_ATTEMPTS: usize = 100;

/// `.excalidraw`
pub open spec fn dotted_ext() -> Seq<char> {
    seq!['.', 'e', 'x', 'c', 'a', 'l', 'i', 'd', 'r', 'a', 'w']
}

pub open spec fn digit_char(d: nat) -> char {
    seq!['0', '1', '2', '3', '4', '5', '6', '7', '8', '9'][d as int]
}

/// The decimal digits of `n`.
pub open spec fn decimal(n: nat) -> Seq<char>
    decreases n,
{
    if n < 10 {
        seq![digit_char(n)]
    } else {
        decimal(n / 10).push(digit_char(n % 10))
    }
}

/// `s` with every trailing `.excalidraw` removed.
pub open spec fn trim_ext(s: Seq<char>) -> Seq<char>
    decreases s.len(),
{
    if s.len() >= 11 && s.subrange(s.len() - 11, s.len() as int) == dotted_ext() {
        trim_ext(s.subrange(0, s.len() - 11))
    } else {
        s
    }
}

/// The stem that suffixed candidates are built on.
pub open spec fn base_stem(name: Seq<char>) -> Seq<char> {
    trim_ext(stem(name))
}

/// `base-k.excalidraw`
pub open spec fn candidate(base: Seq<char>, k: nat) -> Seq<char> {
    base + seq!['-'] + decimal(k) + dotted_ext()
}

pub open spec fn taken(names: Seq<Seq<char>>, n: Seq<char>) -> bool {
    names.contains(n)
}

/// The first counter from `k` up to the ceiling whose candidate is free.
pub open spec fn first_free(names: Seq<Seq<char>>, base: Seq<char>, k: nat) -> Option<nat>
    decreases MAX_NAME_ATTEMPTS + 1 - k,
{
    if k > MAX_NAME_ATTEMPTS {
        None
    } else if !taken(names, candidate(base, k)) {
        Some(k)
    } else {
        first_free(names, base, k + 1)
    }
}

/// The desired name when free; else the first free suffixed candidate.
pub open spec fn unique_name_spec(names: Seq<Seq<char>>, desired: Seq<char>) -> Result<
    Seq<char>,
    FsError,
> {
    if !taken(names, desired) {
        Ok(desired)
    } else {
        match first_free(names, base_stem(desired), 1) {
            Some(k) => Ok(candidate(base_stem(desired), k)),
            None => Err(FsError::NameExhausted),
        }
    }
}

/// The decimal digits of `n`.
pub fn decimal_string(n: usize) -> (r: String)
    ensures
        r@ == decimal(n as nat),
    decreases n,
{
    let digits = "0123456789";
    proof {
        reveal_strlit("0123456789");
    }
    let d = n % 10;
    let last = digits.substring_char(d, d + 1);
    assert(last@ =~= seq![digit_char(d as nat)]);
    if n < 10 {
        String::from_str(last)
    } else {
        let mut s = decimal_string(n / 10);
        s.append(last);
        assert(s@ =~= decimal((n / 10) as nat).push(digit_char((n % 10) as nat)));
        s
    }
}

/// Whether `n` is one of `names`.
fn is_taken(names: &Vec<String>, n: &String) -> (b: bool)
    ensures
        b == taken(views(names@), n@),
{
    let mut i: usize = 0;
    while i < names.len()
        invariant
            i <= names@.len(),
            forall|k: int| 0 <= k < i ==> names@[k]@ != n@,
        decreases names.len() - i,
    {
        if names[i] == *n {
            assert(views(names@)[i as int] == n@);
            return true;
        }
        i = i + 1;
    }
    assert forall|k: int| 0 <= k < views(names@).len() implies views(names@)[k] != n@ by {
        assert(views(names@)[k] == names@[k]@);
    }
    false
}

/// `s` with every trailing `.excalidraw` removed.
fn trim_extension(s: &str) -> (r: String)
    ensures
        r@ == trim_ext(s@),
{
    proof {
        reveal_strlit(".excalidraw");
    }
    let ext = String::from_str(".excalidraw");
    assert(ext@ =~= dotted_ext());
    let mut cur = String::from_str(s);
    let mut n = s.unicode_len();
    while n >= 11
        invariant
            n == cur@.len(),
            trim_ext(cur@) == trim_ext(s@),
            ext@ == dotted_ext(),
        decreases n,
    {
        let tail = String::from_str(cur.as_str().substring_char(n - 11, n));
        if tail != ext {
            return cur;
        }
        cur = String::from_str(cur.as_str().substring_char(0, n - 11));
        n = n - 11;
    }
    cur
}

/// `base-k.excalidraw`
fn candidate_name(base: &String, k: usize) -> (r: String)
    ensures
        r@ == candidate(base@, k as nat),
{
    proof {
        reveal_strlit("-");
        reveal_strlit(".excalidraw");
    }
    let mut r = base.clone();
    r.append("-");
    let digits = decimal_string(k);
    r.append(digits.as_str());
    r.append(".excalidraw");
    assert("-"@ =~= seq!['-']);
    assert(".excalidraw"@ =~= dotted_ext());
    r
}

/// A name under which a file can be created among the existing `names` of a
/// directory: `desired` itself when free, else the stem of `desired` followed
/// by `-1`, `-2`, ... up to the ceiling, with the recognized extension.
pub fn unique_name(names: &Vec<String>, desired: &str) -> (r: Result<String, FsError>)
    ensures
        result_view(r) == unique_name_spec(views(names@), desired@),
{
    let want = String::from_str(desired);
    if !is_taken(names, &want) {
        return Ok(want);
    }
    let stem_s = file_stem(desired);
    let base = trim_extension(stem_s.as_str());
    let mut k: usize = 1;
    while k <= MAX_NAME_ATTEMPTS
        invariant
            1 <= k <= MAX_NAME_ATTEMPTS + 1,
            base@ == base_stem(desired@),
            taken(views(names@), desired@),
            first_free(views(names@), base@, 1) == first_free(views(names@), base@, k as nat),
        decreases MAX_NAME_ATTEMPTS + 1 - k,
    {
        let c = candidate_name(&base, k);
        if !is_taken(names, &c) {
            assert(first_free(views(names@), base@, k as nat) == Some(k as nat));
            return Ok(c);
        }
        k = k + 1;
    }
    Err(FsError::NameExhausted)
}

} // verus!
