//! Characters of strings, and comparisons of character sequences with
//! strings.

use vstd::prelude::*;

verus! {

/// The characters of `s`, in order.
pub fn chars_of(s: &str) -> (v: Vec<char>)
    ensures
        v@ == s@,
{
    broadcast use vstd::string::axiom_spec_iter;

    let mut v: Vec<char> = Vec::new();
    for c in it: s.chars()
        invariant
            it.seq() == s@,
            v@ == s@.take(it.index() as int),
    {
        v.push(c);
    }
    assert(v@ =~= s@);
    v
}

pub open spec fn has_prefix(s: Seq<char>, p: Seq<char>) -> bool {
    p.len() <= s.len() && s.take(p.len() as int) == p
}

/// Whether `s` holds exactly the characters of `lit`.
pub fn equals_str(s: &Vec<char>, lit: &str) -> (r: bool)
    ensures
        r == (s@ == lit@),
{
    let l = chars_of(lit);
    if s.len() != l.len() {
        return false;
    }
    let mut i: usize = 0;
    while i < l.len()
        invariant
            i <= l.len(),
            s.len() == l.len(),
            l@ == lit@,
            forall|j: int| 0 <= j < i ==> s@[j] == l@[j],
        decreases l.len() - i,
    {
        if s[i] != l[i] {
            assert(s@[i as int] != lit@[i as int]);
            return false;
        }
        i = i + 1;
    }
    assert(s@ =~= l@);
    true
}

/// Whether `s` begins with the characters of `lit`; on success also the
/// number of characters to skip.
pub fn str_prefix(s: &Vec<char>, lit: &str) -> (r: Option<usize>)
    ensures
        match r {
            Some(n) => has_prefix(s@, lit@) && n == lit@.len(),
            None => !has_prefix(s@, lit@),
        },
{
    let l = chars_of(lit);
    if s.len() < l.len() {
        return None;
    }
    let mut i: usize = 0;
    while i < l.len()
        invariant
            i <= l.len() <= s.len(),
            l@ == lit@,
            forall|j: int| 0 <= j < i ==> s@[j] == l@[j],
        decreases l.len() - i,
    {
        if s[i] != l[i] {
            assert(s@.take(l@.len() as int)[i as int] != l@[i as int]);
            return None;
        }
        i = i + 1;
    }
    assert(s@.take(l@.len() as int) =~= l@);
    Some(l.len())
}

} // verus!
