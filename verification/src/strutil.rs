//! String utilities shared by the pipeline: conversion between strings and
//! character vectors, lexicographic comparison, and the file-name and
//! file-stem views of a path string.

use vstd::prelude::*;
use vstd::string::StrSliceExecFns;

verus! {

/// Collect the characters of a string slice into a vector.
pub fn str_to_chars(s: &str) -> (r: Vec<char>)
    ensures
        r@ == s@,
{
    let n = s.unicode_len();
    let mut r: Vec<char> = Vec::new();
    let mut i: usize = 0;
    while i < n
        invariant
            n == s@.len(),
            i <= n,
            r@ == s@.subrange(0, i as int),
        decreases n - i,
    {
        r.push(s.get_char(i));
        i = i + 1;
        proof {
            assert(r@ =~= s@.subrange(0, i as int));
        }
    }
    proof {
        assert(r@ =~= s@);
    }
    r
}

/// Relies on `String: FromIterator<char>` (`Iterator::collect`): the
/// collected string holds exactly the characters of the vector, in order.
#[verifier::external_body]
pub fn chars_to_string(v: &Vec<char>) -> (r: String)
    ensures
        r@ == v@,
{
    v.iter().collect()
}

/// Lexicographic order on character sequences, by code point; total.
pub open spec fn lex_le(a: Seq<char>, b: Seq<char>) -> bool
    decreases a.len(),
{
    if a.len() == 0 {
        true
    } else if b.len() == 0 {
        false
    } else if (a[0] as u32) < (b[0] as u32) {
        true
    } else if (a[0] as u32) > (b[0] as u32) {
        false
    } else {
        lex_le(a.drop_first(), b.drop_first())
    }
}

/// Characters with the same code point are the same character.
pub proof fn lemma_char_eq(a: char, b: char)
    requires
        a as u32 == b as u32,
    ensures
        a == b,
{
}

/// `lex_le` relates every pair of sequences one way or the other.
pub proof fn lemma_lex_le_total(a: Seq<char>, b: Seq<char>)
    ensures
        lex_le(a, b) || lex_le(b, a),
    decreases a.len(),
{
    if a.len() > 0 && b.len() > 0 && a[0] as u32 == b[0] as u32 {
        lemma_lex_le_total(a.drop_first(), b.drop_first());
    }
}

/// Mutual `lex_le` means equality.
pub proof fn lemma_lex_le_antisymmetric(a: Seq<char>, b: Seq<char>)
    requires
        lex_le(a, b),
        lex_le(b, a),
    ensures
        a == b,
    decreases a.len(),
{
    if a.len() > 0 && b.len() > 0 && a[0] as u32 == b[0] as u32 {
        lemma_char_eq(a[0], b[0]);
        lemma_lex_le_antisymmetric(a.drop_first(), b.drop_first());
        assert(a =~= seq![a[0]] + a.drop_first());
        assert(b =~= seq![b[0]] + b.drop_first());
    } else {
        assert(a =~= b);
    }
}

/// `lex_le` is transitive.
pub proof fn lemma_lex_le_transitive(a: Seq<char>, b: Seq<char>, c: Seq<char>)
    requires
        lex_le(a, b),
        lex_le(b, c),
    ensures
        lex_le(a, c),
    decreases a.len(),
{
    if a.len() > 0 && b.len() > 0 && c.len() > 0 {
        if a[0] as u32 == b[0] as u32 && b[0] as u32 == c[0] as u32 {
            lemma_lex_le_transitive(a.drop_first(), b.drop_first(), c.drop_first());
        }
    }
}

/// Executable lexicographic comparison of two strings, by code point.
pub fn str_le(a: &str, b: &str) -> (r: bool)
    ensures
        r == lex_le(a@, b@),
{
    let na = a.unicode_len();
    let nb = b.unicode_len();
    let mut i: usize = 0;
    proof {
        assert(a@.skip(0) =~= a@);
        assert(b@.skip(0) =~= b@);
    }
    loop
        invariant
            na == a@.len(),
            nb == b@.len(),
            i <= na,
            i <= nb,
            a@.subrange(0, i as int) =~= b@.subrange(0, i as int),
            lex_le(a@, b@) == lex_le(a@.skip(i as int), b@.skip(i as int)),
        decreases na - i,
    {
        if i >= na {
            assert(a@.skip(i as int).len() == 0);
            return true;
        }
        if i >= nb {
            assert(b@.skip(i as int).len() == 0);
            assert(a@.skip(i as int).len() > 0);
            return false;
        }
        let ca = a.get_char(i);
        let cb = b.get_char(i);
        proof {
            assert(a@.skip(i as int)[0] == a@[i as int]);
            assert(b@.skip(i as int)[0] == b@[i as int]);
        }
        if (ca as u32) < (cb as u32) {
            return true;
        }
        if (ca as u32) > (cb as u32) {
            return false;
        }
        proof {
            lemma_char_eq(ca, cb);
            assert(a@.skip(i as int).drop_first() =~= a@.skip(i as int + 1));
            assert(b@.skip(i as int).drop_first() =~= b@.skip(i as int + 1));
            assert(a@.subrange(0, i as int + 1) =~= b@.subrange(0, i as int + 1));
        }
        i = i + 1;
    }
}

/// The suffix of `p` after the last `/`; all of `p` when `p` holds no `/`.
/// This is the file-name view of a path string.
pub open spec fn file_name_spec(p: Seq<char>) -> Seq<char>
    decreases p.len(),
{
    if p.len() == 0 {
        p
    } else if p.last() == '/' {
        Seq::empty()
    } else {
        file_name_spec(p.drop_last()).push(p.last())
    }
}

/// The index of the last `.` in `f`, or `-1` when there is none.
pub open spec fn last_dot_spec(f: Seq<char>) -> int
    decreases f.len(),
{
    if f.len() == 0 {
        -1
    } else if f.last() == '.' {
        f.len() - 1
    } else {
        last_dot_spec(f.drop_last())
    }
}

/// The stem of a file name: the portion before the last `.`, except that a
/// name whose only `.` opens it (or that has no `.`) is its own stem.
pub open spec fn stem_spec(f: Seq<char>) -> Seq<char> {
    let d = last_dot_spec(f);
    if d <= 0 {
        f
    } else {
        f.subrange(0, d)
    }
}

proof fn lemma_last_dot_range(f: Seq<char>)
    ensures
        -1 <= last_dot_spec(f) < f.len(),
        last_dot_spec(f) >= 0 ==> f[last_dot_spec(f)] == '.',
        forall|j: int| last_dot_spec(f) < j < f.len() ==> f[j] != '.',
    decreases f.len(),
{
    if f.len() > 0 && f.last() != '.' {
        lemma_last_dot_range(f.drop_last());
        assert forall|j: int| last_dot_spec(f) < j < f.len() implies f[j] != '.' by {
            if j < f.len() - 1 {
                assert(f.drop_last()[j] == f[j]);
            }
        }
    }
}

proof fn lemma_file_name_suffix(p: Seq<char>, k: int)
    requires
        0 <= k <= p.len(),
        forall|j: int| k <= j < p.len() ==> p[j] != '/',
        k > 0 ==> p[k - 1] == '/',
    ensures
        file_name_spec(p) == p.skip(k),
    decreases p.len(),
{
    if p.len() == 0 {
        assert(file_name_spec(p) =~= p.skip(k));
    } else if p.last() == '/' {
        assert(k == p.len());
        assert(file_name_spec(p) =~= p.skip(k));
    } else {
        lemma_file_name_suffix(p.drop_last(), if k < p.len() { k } else { p.len() - 1 });
        if k < p.len() {
            assert(file_name_spec(p.drop_last()) == p.drop_last().skip(k));
            assert(file_name_spec(p.drop_last()).push(p.last()) =~= p.skip(k));
        } else {
            assert(file_name_spec(p.drop_last()) == p.drop_last().skip(k - 1));
            assert(p.drop_last().skip(k - 1) =~= Seq::<char>::empty());
            assert(file_name_spec(p.drop_last()).push(p.last()) =~= p.skip(k));
        }
    }
}

/// Executable file-name extraction, proved against [`file_name_spec`].
pub fn file_name_of(p: &str) -> (r: String)
    ensures
        r@ == file_name_spec(p@),
{
    let n = p.unicode_len();
    let mut k: usize = n;
    loop
        invariant
            n == p@.len(),
            k <= n,
            forall|j: int| k <= j < n ==> p@[j] != '/',
        ensures
            k <= n,
            forall|j: int| k <= j < n ==> p@[j] != '/',
            k > 0 ==> p@[k - 1] == '/',
        decreases k,
    {
        if k == 0 {
            break;
        }
        if p.get_char(k - 1) == '/' {
            break;
        }
        k = k - 1;
    }
    proof {
        lemma_file_name_suffix(p@, k as int);
    }
    let tail = p.substring_char(k, n);
    proof {
        assert(tail@ =~= p@.skip(k as int));
    }
    String::from_str(tail)
}

/// Executable stem extraction, proved against [`stem_spec`].
pub fn stem_of(f: &str) -> (r: String)
    ensures
        r@ == stem_spec(f@),
{
    let n = f.unicode_len();
    proof {
        lemma_last_dot_range(f@);
    }
    let mut k: usize = n;
    loop
        invariant
            n == f@.len(),
            k <= n,
            forall|j: int| k <= j < n ==> f@[j] != '.',
        ensures
            k <= n,
            forall|j: int| k <= j < n ==> f@[j] != '.',
            k > 0 ==> f@[k - 1] == '.',
        decreases k,
    {
        if k == 0 {
            break;
        }
        if f.get_char(k - 1) == '.' {
            break;
        }
        k = k - 1;
    }
    if k <= 1 {
        proof {
            if k == 0 {
                assert(last_dot_spec(f@) < 0) by {
                    if last_dot_spec(f@) >= 0 {
                        assert(f@[last_dot_spec(f@)] == '.');
                    }
                }
            } else {
                assert(f@[0] == '.');
                assert(last_dot_spec(f@) == 0) by {
                    if last_dot_spec(f@) > 0 {
                        assert(f@[last_dot_spec(f@)] == '.');
                        assert(false);
                    }
                    if last_dot_spec(f@) < 0 {
                        assert(f@[0] != '.');
                    }
                }
            }
        }
        String::from_str(f)
    } else {
        proof {
            assert(f@[k - 1] == '.');
            assert(last_dot_spec(f@) == k - 1) by {
                if last_dot_spec(f@) > k - 1 {
                    assert(f@[last_dot_spec(f@)] == '.');
                }
                if last_dot_spec(f@) < k - 1 {
                    assert(f@[k - 1] != '.');
                }
            }
        }
        let head = f.substring_char(0, k - 1);
        proof {
            assert(head@ =~= stem_spec(f@));
        }
        String::from_str(head)
    }
}

} // verus!
