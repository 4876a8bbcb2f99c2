//! The identifier normalizer: turns an arbitrary file-name stem into a
//! lower-snake-case identifier.
//!
//! The algorithm has three stages. First the surrounding whitespace is
//! trimmed. Then every character outside `[A-Za-z0-9_]`, and every leading
//! character outside `[A-Za-z_]` (so also leading digits), is replaced by an
//! underscore. Last the result is written in lower snake case: words are cut
//! at underscores, at a case change, at a letter-digit seam and before the
//! last capital of an acronym, lowercased and joined with single underscores.
//! A result that would be empty becomes a single underscore, and a result
//! that would open with a digit gains a leading underscore, so the outcome is
//! always a valid identifier and normalizing twice changes nothing.

use vstd::prelude::*;

use crate::chars::{
    check_digit, check_lead_char, check_lower, check_space, check_upper, check_word_char, is_digit,
    is_lead_char, is_letter, is_lower, is_space, is_upper, is_word_char, lower_char, to_lower,
};
use crate::strutil::{chars_to_string, str_to_chars};

verus! {

/// What the snake-case scanner last saw: nothing yet, a separator after at
/// least one word character, or a word character of the given kind.
#[derive(Debug, Clone, Copy, PartialEq, Eq, Structural)]
pub enum ScanState {
    /// No word character seen yet.
    Fresh,
    /// A separator seen after at least one word character.
    Pending,
    /// The last word character was a lowercase letter.
    AfterLower,
    /// The last word character was an uppercase letter.
    AfterUpper,
    /// The last word character was a digit.
    AfterDigit,
}

/// The scanner state after emitting the word character `c`.
pub open spec fn state_after(c: char) -> ScanState {
    if is_lower(c) {
        ScanState::AfterLower
    } else if is_upper(c) {
        ScanState::AfterUpper
    } else {
        ScanState::AfterDigit
    }
}

/// Does a word start before `c`, given the state `p` and whether a lowercase
/// letter follows `c`? Case changes, letter-digit seams and the last capital
/// of an acronym open a word; a pending separator always does.
pub open spec fn word_boundary(p: ScanState, c: char, next_lower: bool) -> bool {
    match p {
        ScanState::Fresh => false,
        ScanState::Pending => true,
        ScanState::AfterLower => is_upper(c) || is_digit(c),
        ScanState::AfterUpper => is_digit(c) || (is_upper(c) && next_lower),
        ScanState::AfterDigit => is_letter(c),
    }
}

/// The snake-case scan of `s` from state `p`: separators (underscores, and
/// any character outside the word class) are held back and written as one
/// underscore before the next word character; word characters are lowercased,
/// with an underscore inserted at each word boundary.
pub open spec fn snake_rec(s: Seq<char>, p: ScanState) -> Seq<char>
    decreases s.len(),
{
    if s.len() == 0 {
        Seq::empty()
    } else {
        let c = s[0];
        if !is_word_char(c) || c == '_' {
            let p2 = if p == ScanState::Fresh {
                ScanState::Fresh
            } else {
                ScanState::Pending
            };
            snake_rec(s.drop_first(), p2)
        } else {
            let next_lower = s.len() > 1 && is_lower(s[1]);
            let emitted = if word_boundary(p, c, next_lower) {
                seq!['_', to_lower(c)]
            } else {
                seq![to_lower(c)]
            };
            emitted + snake_rec(s.drop_first(), state_after(c))
        }
    }
}

/// Lower snake case of `s`, guarded so that the result is an identifier: an
/// empty scan becomes `_`, and a scan opening with a digit gains a leading
/// underscore.
pub open spec fn snake_spec(s: Seq<char>) -> Seq<char> {
    let o = snake_rec(s, ScanState::Fresh);
    if o.len() == 0 {
        seq!['_']
    } else if is_digit(o[0]) {
        seq!['_'] + o
    } else {
        o
    }
}

/// `s` without its leading whitespace.
pub open spec fn drop_leading_space(s: Seq<char>) -> Seq<char>
    decreases s.len(),
{
    if s.len() > 0 && is_space(s[0]) {
        drop_leading_space(s.drop_first())
    } else {
        s
    }
}

/// `s` without its trailing whitespace.
pub open spec fn drop_trailing_space(s: Seq<char>) -> Seq<char>
    decreases s.len(),
{
    if s.len() > 0 && is_space(s.last()) {
        drop_trailing_space(s.drop_last())
    } else {
        s
    }
}

/// `s` without surrounding whitespace.
pub open spec fn trim_spec(s: Seq<char>) -> Seq<char> {
    drop_trailing_space(drop_leading_space(s))
}

/// `s` without its leading run of characters outside `[A-Za-z_]`.
pub open spec fn drop_leading_nonlead(s: Seq<char>) -> Seq<char>
    decreases s.len(),
{
    if s.len() > 0 && !is_lead_char(s[0]) {
        drop_leading_nonlead(s.drop_first())
    } else {
        s
    }
}

/// Every character outside `[A-Za-z0-9_]` written as an underscore.
pub open spec fn underscore_nonword(s: Seq<char>) -> Seq<char> {
    Seq::new(s.len(), |i: int| if is_word_char(s[i]) { s[i] } else { '_' })
}

/// The replacement stage: a leading run of characters outside `[A-Za-z_]`
/// becomes one underscore, and every later character outside `[A-Za-z0-9_]`
/// becomes an underscore. (The snake-case stage collapses underscore runs,
/// so runs need not be collapsed here.)
pub open spec fn replace_spec(s: Seq<char>) -> Seq<char> {
    if drop_leading_nonlead(s) == s {
        underscore_nonword(s)
    } else {
        seq!['_'] + underscore_nonword(drop_leading_nonlead(s))
    }
}

/// The whole normalizer: trim, replace, then lower snake case.
pub open spec fn normalize_spec(s: Seq<char>) -> Seq<char> {
    snake_spec(replace_spec(trim_spec(s)))
}

/// A valid lower-snake identifier: non-empty, opening with a lowercase letter
/// or underscore, all characters lowercase letters, digits or underscores.
pub open spec fn valid_ident(s: Seq<char>) -> bool {
    &&& s.len() > 0
    &&& (is_lower(s[0]) || s[0] == '_')
    &&& forall|i: int| 0 <= i < s.len() ==> is_lower(#[trigger] s[i]) || is_digit(s[i]) || s[i] == '_'
}

/// Lowercasing a letter gives a lowercase letter; digits are unchanged.
proof fn lemma_to_lower_class(c: char)
    requires
        is_word_char(c),
        c != '_',
    ensures
        is_lower(to_lower(c)) || is_digit(to_lower(c)),
        is_letter(c) ==> is_lower(to_lower(c)),
        is_digit(c) ==> to_lower(c) == c,
        !is_digit(to_lower(c)) || is_digit(c),
{
    if is_upper(c) {
        let u = c as u32 + 32;
        assert(97 <= u <= 122);
        assert(((u as u8) as char) as u32 == u);
    }
}

/// The shape every normalizer result has: non-empty; opening with a
/// lowercase letter, or with an underscore that is alone or followed by a
/// digit; only lowercase letters, digits and underscores; every underscore
/// followed by a letter or digit; and no letter-digit seam without an
/// underscore between.
pub open spec fn canonical(t: Seq<char>) -> bool {
    &&& t.len() > 0
    &&& (is_lower(t[0]) || t[0] == '_')
    &&& (t[0] == '_' ==> t.len() == 1 || is_digit(t[1]))
    &&& forall|i: int|
        0 <= i < t.len() ==> is_lower(#[trigger] t[i]) || is_digit(t[i]) || t[i] == '_'
    &&& forall|i: int|
        0 <= i < t.len() && #[trigger] t[i] == '_' && t.len() > 1 ==> i + 1 < t.len() && (is_lower(
            t[i + 1],
        ) || is_digit(t[i + 1]))
    &&& forall|i: int|
        0 <= i < t.len() - 1 ==> !(is_lower(#[trigger] t[i]) && is_digit(t[i + 1])) && !(is_digit(
            t[i],
        ) && is_lower(t[i + 1]))
}

proof fn lemma_snake_rec_props(s: Seq<char>, p: ScanState)
    ensures
        forall|i: int|
            0 <= i < snake_rec(s, p).len() ==> is_lower(#[trigger] snake_rec(s, p)[i]) || is_digit(
                snake_rec(s, p)[i],
            ) || snake_rec(s, p)[i] == '_',
        forall|i: int|
            0 <= i < snake_rec(s, p).len() && #[trigger] snake_rec(s, p)[i] == '_' ==> i + 1
                < snake_rec(s, p).len() && (is_lower(snake_rec(s, p)[i + 1]) || is_digit(
                snake_rec(s, p)[i + 1],
            )),
        forall|i: int|
            0 <= i < snake_rec(s, p).len() - 1 ==> !(is_lower(#[trigger] snake_rec(s, p)[i])
                && is_digit(snake_rec(s, p)[i + 1])) && !(is_digit(snake_rec(s, p)[i]) && is_lower(
                snake_rec(s, p)[i + 1],
            )),
        p == ScanState::Fresh && snake_rec(s, p).len() > 0 ==> is_lower(snake_rec(s, p)[0])
            || is_digit(snake_rec(s, p)[0]),
        p == ScanState::Pending && snake_rec(s, p).len() > 0 ==> snake_rec(s, p)[0] == '_',
        p == ScanState::AfterLower && snake_rec(s, p).len() > 0 ==> snake_rec(s, p)[0] == '_'
            || is_lower(snake_rec(s, p)[0]),
        p == ScanState::AfterUpper && snake_rec(s, p).len() > 0 ==> snake_rec(s, p)[0] == '_'
            || is_lower(snake_rec(s, p)[0]),
        p == ScanState::AfterDigit && snake_rec(s, p).len() > 0 ==> snake_rec(s, p)[0] == '_'
            || is_digit(snake_rec(s, p)[0]),
    decreases s.len(),
{
    if s.len() == 0 {
    } else {
        let c = s[0];
        let o = snake_rec(s, p);
        if !is_word_char(c) || c == '_' {
            let p2 = if p == ScanState::Fresh {
                ScanState::Fresh
            } else {
                ScanState::Pending
            };
            lemma_snake_rec_props(s.drop_first(), p2);
        } else {
            lemma_to_lower_class(c);
            let p2 = state_after(c);
            lemma_snake_rec_props(s.drop_first(), p2);
            let rest = snake_rec(s.drop_first(), p2);
            let next_lower = s.len() > 1 && is_lower(s[1]);
            let emitted = if word_boundary(p, c, next_lower) {
                seq!['_', to_lower(c)]
            } else {
                seq![to_lower(c)]
            };
            assert(o == emitted + rest);
            let e = emitted.len() as int;
            assert(forall|i: int| 0 <= i < e ==> o[i] == emitted[i]);
            assert(forall|i: int| e <= i < o.len() ==> o[i] == rest[i - e]);
            // the seam between the emitted characters and the rest
            if rest.len() > 0 && rest[0] != '_' {
                if p2 == ScanState::AfterLower {
                    assert(is_lower(rest[0]));
                    assert(is_lower(to_lower(c)));
                } else if p2 == ScanState::AfterUpper {
                    assert(is_lower(rest[0]));
                    assert(is_lower(to_lower(c)));
                } else {
                    assert(is_digit(rest[0]));
                    assert(is_digit(to_lower(c)));
                }
            }
            assert forall|i: int|
                0 <= i < o.len() && #[trigger] o[i] == '_' implies i + 1 < o.len() && (is_lower(
                o[i + 1],
            ) || is_digit(o[i + 1])) by {
                if i < e {
                    assert(o[i] == emitted[i]);
                    assert(i == 0 && e == 2);
                } else {
                    assert(rest[i - e] == '_');
                }
            }
            assert forall|i: int|
                0 <= i < o.len() - 1 implies !(is_lower(#[trigger] o[i]) && is_digit(o[i + 1]))
                && !(is_digit(o[i]) && is_lower(o[i + 1])) by {
                if i + 1 < e {
                    assert(o[i] == '_');
                } else if i + 1 == e {
                    assert(o[i] == emitted[e - 1]);
                    assert(o[i + 1] == rest[0]);
                } else {
                    assert(o[i] == rest[i - e] && o[i + 1] == rest[i + 1 - e]);
                }
            }
        }
    }
}

/// Every normalizer result is canonical.
proof fn lemma_normalize_canonical(s: Seq<char>)
    ensures
        canonical(normalize_spec(s)),
{
    let u = replace_spec(trim_spec(s));
    let o = snake_rec(u, ScanState::Fresh);
    lemma_snake_rec_props(u, ScanState::Fresh);
    let t = normalize_spec(s);
    if o.len() == 0 {
        assert(t =~= seq!['_']);
        assert(canonical(t));
    } else if is_digit(o[0]) {
        assert(t == seq!['_'] + o);
        assert(t[0] == '_');
        assert(forall|i: int| 1 <= i < t.len() ==> t[i] == o[i - 1]);
        assert(canonical(t));
    } else {
        assert(t == o);
        assert(is_lower(t[0]));
        assert(canonical(t));
    }
}

proof fn lemma_snake_rec_id(t: Seq<char>, p: ScanState)
    requires
        forall|i: int|
            0 <= i < t.len() ==> is_lower(#[trigger] t[i]) || is_digit(t[i]) || t[i] == '_',
        forall|i: int|
            0 <= i < t.len() && #[trigger] t[i] == '_' ==> i + 1 < t.len() && (is_lower(t[i + 1])
                || is_digit(t[i + 1])),
        forall|i: int|
            0 <= i < t.len() - 1 ==> !(is_lower(#[trigger] t[i]) && is_digit(t[i + 1])) && !(
            is_digit(t[i]) && is_lower(t[i + 1])),
        p == ScanState::AfterLower || p == ScanState::AfterDigit,
        t.len() > 0 ==> (p == ScanState::AfterLower ==> !is_digit(t[0])) && (p
            == ScanState::AfterDigit ==> !is_lower(t[0])),
    ensures
        snake_rec(t, p) == t,
    decreases t.len(),
{
    if t.len() == 0 {
        assert(snake_rec(t, p) =~= t);
    } else if t[0] == '_' {
        let w = t[1];
        assert(is_lower(w) || is_digit(w));
        let t1 = t.drop_first();
        let t2 = t1.drop_first();
        assert(t2 =~= t.skip(2));
        assert(snake_rec(t, p) == snake_rec(t1, ScanState::Pending));
        assert(t1[0] == w && is_word_char(w) && w != '_');
        assert(word_boundary(ScanState::Pending, w, t1.len() > 1 && is_lower(t1[1])));
        assert(to_lower(w) == w);
        assert(snake_rec(t1, ScanState::Pending) == seq!['_', w] + snake_rec(t2, state_after(w)));
        assert(forall|i: int| 0 <= i < t2.len() ==> t2[i] == t[i + 2]);
        lemma_snake_rec_id(t2, state_after(w));
        assert(seq!['_', w] + t2 =~= t);
    } else {
        let c = t[0];
        assert(is_lower(c) || is_digit(c));
        let t1 = t.drop_first();
        assert(!word_boundary(p, c, t.len() > 1 && is_lower(t[1])));
        assert(to_lower(c) == c);
        assert(snake_rec(t, p) == seq![c] + snake_rec(t1, state_after(c)));
        assert(forall|i: int| 0 <= i < t1.len() ==> t1[i] == t[i + 1]);
        lemma_snake_rec_id(t1, state_after(c));
        assert(seq![c] + t1 =~= t);
    }
}

/// A canonical string is a fixed point of the normalizer.
proof fn lemma_canonical_fixpoint(t: Seq<char>)
    requires
        canonical(t),
    ensures
        normalize_spec(t) == t,
{
    // trimming changes nothing: no character of t is whitespace
    assert(!is_space(t[0]));
    assert(drop_leading_space(t) == t);
    assert(!is_space(t.last()));
    assert(drop_trailing_space(t) == t);
    assert(trim_spec(t) == t);
    // replacement changes nothing: t opens with a lead character and holds
    // only word characters
    assert(is_lead_char(t[0]));
    assert(drop_leading_nonlead(t) == t);
    assert(underscore_nonword(t) =~= t);
    assert(replace_spec(t) == t);
    // the snake-case scan reproduces t
    if t.len() == 1 && t[0] == '_' {
        assert(snake_rec(t, ScanState::Fresh) == snake_rec(
            t.drop_first(),
            ScanState::Fresh,
        ));
        assert(t.drop_first().len() == 0);
        assert(snake_rec(t, ScanState::Fresh) =~= Seq::<char>::empty());
        assert(snake_spec(t) =~= t);
    } else if t[0] == '_' {
        let w = t[1];
        assert(is_digit(w));
        let t1 = t.drop_first();
        let t2 = t1.drop_first();
        assert(t2 =~= t.skip(2));
        assert(snake_rec(t, ScanState::Fresh) == snake_rec(t1, ScanState::Fresh));
        assert(t1[0] == w && is_word_char(w) && w != '_');
        assert(!word_boundary(ScanState::Fresh, w, t1.len() > 1 && is_lower(t1[1])));
        assert(to_lower(w) == w);
        assert(snake_rec(t1, ScanState::Fresh) == seq![w] + snake_rec(t2, ScanState::AfterDigit));
        assert(forall|i: int| 0 <= i < t2.len() ==> t2[i] == t[i + 2]);
        lemma_snake_rec_id(t2, ScanState::AfterDigit);
        let o = snake_rec(t, ScanState::Fresh);
        assert(o =~= t.drop_first());
        assert(o.len() > 0 && is_digit(o[0]));
        assert(snake_spec(t) =~= t);
    } else {
        let c = t[0];
        assert(is_lower(c));
        let t1 = t.drop_first();
        assert(!word_boundary(ScanState::Fresh, c, t.len() > 1 && is_lower(t[1])));
        assert(to_lower(c) == c);
        assert(snake_rec(t, ScanState::Fresh) == seq![c] + snake_rec(t1, ScanState::AfterLower));
        assert(forall|i: int| 0 <= i < t1.len() ==> t1[i] == t[i + 1]);
        lemma_snake_rec_id(t1, ScanState::AfterLower);
        let o = snake_rec(t, ScanState::Fresh);
        assert(o =~= t);
        assert(o.len() > 0 && is_lower(o[0]) && !is_digit(o[0]));
        assert(snake_spec(t) =~= t);
    }
}

/// Normalizing is idempotent: a second pass over a normalized string changes
/// nothing, for every input string.
pub proof fn lemma_normalize_idempotent(s: Seq<char>)
    ensures
        normalize_spec(normalize_spec(s)) == normalize_spec(s),
{
    lemma_normalize_canonical(s);
    lemma_canonical_fixpoint(normalize_spec(s));
}

/// Every normalizer result is a non-empty valid identifier, for every input
/// string; in particular for every non-empty input holding an ASCII
/// alphanumeric character.
pub proof fn lemma_normalize_valid(s: Seq<char>)
    ensures
        valid_ident(normalize_spec(s)),
        normalize_spec(s).len() > 0,
{
    lemma_normalize_canonical(s);
}

proof fn lemma_drop_leading_space_skip(s: Seq<char>, k: int)
    requires
        0 <= k <= s.len(),
        forall|j: int| 0 <= j < k ==> is_space(#[trigger] s[j]),
        k < s.len() ==> !is_space(s[k]),
    ensures
        drop_leading_space(s) == s.skip(k),
    decreases k,
{
    if k == 0 {
        assert(s.skip(0) =~= s);
    } else {
        lemma_drop_leading_space_skip(s.drop_first(), k - 1);
        assert(s.drop_first().skip(k - 1) =~= s.skip(k));
    }
}

proof fn lemma_drop_trailing_space_take(s: Seq<char>, m: int)
    requires
        0 <= m <= s.len(),
        forall|j: int| m <= j < s.len() ==> is_space(#[trigger] s[j]),
        m > 0 ==> !is_space(s[m - 1]),
    ensures
        drop_trailing_space(s) == s.take(m),
    decreases s.len(),
{
    if m == s.len() {
        if s.len() == 0 || !is_space(s.last()) {
            assert(s.take(m) =~= s);
        } else {
            assert(false);
        }
    } else {
        lemma_drop_trailing_space_take(s.drop_last(), m);
        assert(s.drop_last().take(m) =~= s.take(m));
    }
}

proof fn lemma_drop_leading_nonlead_skip(s: Seq<char>, k: int)
    requires
        0 <= k <= s.len(),
        forall|j: int| 0 <= j < k ==> !is_lead_char(#[trigger] s[j]),
        k < s.len() ==> is_lead_char(s[k]),
    ensures
        drop_leading_nonlead(s) == s.skip(k),
    decreases k,
{
    if k == 0 {
        assert(s.skip(0) =~= s);
    } else {
        lemma_drop_leading_nonlead_skip(s.drop_first(), k - 1);
        assert(s.drop_first().skip(k - 1) =~= s.skip(k));
    }
}

/// Normalize an arbitrary string into a lower-snake-case identifier, per
/// [`normalize_spec`]; see the module documentation for the algorithm.
pub fn to_valid_ident(name: &str) -> (r: String)
    ensures
        r@ == normalize_spec(name@),
{
    let chars = str_to_chars(name);
    let n = chars.len();

    // Trim surrounding whitespace.
    let mut start: usize = 0;
    while start < n && check_space(chars[start])
        invariant
            n == chars@.len(),
            start <= n,
            forall|j: int| 0 <= j < start ==> is_space(#[trigger] chars@[j]),
        decreases n - start,
    {
        start = start + 1;
    }
    let mut end: usize = n;
    while end > start && check_space(chars[end - 1])
        invariant
            n == chars@.len(),
            start <= end <= n,
            forall|j: int| end <= j < n ==> is_space(#[trigger] chars@[j]),
        decreases end,
    {
        end = end - 1;
    }
    proof {
        lemma_drop_leading_space_skip(chars@, start as int);
        lemma_drop_trailing_space_take(chars@.skip(start as int), end - start);
        assert(trim_spec(chars@) =~= chars@.subrange(start as int, end as int));
    }
    let ghost trimmed = trim_spec(chars@);

    // Replace characters that cannot appear in an identifier.
    let mut l: usize = start;
    while l < end && !check_lead_char(chars[l])
        invariant
            n == chars@.len(),
            start <= l <= end <= n,
            forall|j: int| start <= j < l ==> !is_lead_char(#[trigger] chars@[j]),
        decreases end - l,
    {
        l = l + 1;
    }
    proof {
        lemma_drop_leading_nonlead_skip(trimmed, l - start);
        assert(drop_leading_nonlead(trimmed) =~= chars@.subrange(l as int, end as int));
    }
    let mut replaced: Vec<char> = Vec::new();
    if l > start {
        replaced.push('_');
    }
    let mut i: usize = l;
    while i < end
        invariant
            n == chars@.len(),
            start <= l <= i <= end <= n,
            replaced@.len() == (if l > start { 1int } else { 0int }) + (i - l),
            l > start ==> replaced@[0] == '_',
            forall|j: int| l <= j < i ==> replaced@[j - l + (if l > start { 1int } else { 0int })]
                == (if is_word_char(chars@[j]) { chars@[j] } else { '_' }),
        decreases end - i,
    {
        let c = chars[i];
        if check_word_char(c) {
            replaced.push(c);
        } else {
            replaced.push('_');
        }
        i = i + 1;
    }
    proof {
        if l > start {
            assert(drop_leading_nonlead(trimmed).len() < trimmed.len());
            assert(drop_leading_nonlead(trimmed) != trimmed);
            assert(replaced@ =~= seq!['_'] + underscore_nonword(drop_leading_nonlead(trimmed)));
        } else {
            assert(drop_leading_nonlead(trimmed) == trimmed);
            assert(replaced@ =~= underscore_nonword(trimmed));
        }
        assert(replaced@ == replace_spec(trimmed));
    }

    // Lower snake case.
    let m = replaced.len();
    let mut out: Vec<char> = Vec::new();
    let mut p = ScanState::Fresh;
    let mut k: usize = 0;
    proof {
        assert(replaced@.skip(0) =~= replaced@);
    }
    while k < m
        invariant
            m == replaced@.len(),
            k <= m,
            snake_rec(replaced@, ScanState::Fresh) == out@ + snake_rec(
                replaced@.skip(k as int),
                p,
            ),
        decreases m - k,
    {
        let c = replaced[k];
        proof {
            assert(replaced@.skip(k as int)[0] == replaced@[k as int]);
            assert(replaced@.skip(k as int).drop_first() =~= replaced@.skip(k as int + 1));
        }
        let ghost out_before = out@;
        let ghost p_before = p;
        if !check_word_char(c) || c == '_' {
            if !(p == ScanState::Fresh) {
                p = ScanState::Pending;
            }
            proof {
                assert(snake_rec(replaced@.skip(k as int), p_before) == snake_rec(
                    replaced@.skip(k as int + 1),
                    p,
                ));
            }
        } else {
            let next_lower = k + 1 < m && check_lower(replaced[k + 1]);
            proof {
                if k + 1 < m {
                    assert(replaced@.skip(k as int)[1] == replaced@[k as int + 1]);
                }
            }
            let boundary = match p {
                ScanState::Fresh => false,
                ScanState::Pending => true,
                ScanState::AfterLower => check_upper(c) || check_digit(c),
                ScanState::AfterUpper => check_digit(c) || (check_upper(c) && next_lower),
                ScanState::AfterDigit => check_lower(c) || check_upper(c),
            };
            proof {
                assert(boundary == word_boundary(p_before, c, k + 1 < m && is_lower(
                    replaced@[k as int + 1],
                )));
            }
            if boundary {
                out.push('_');
            }
            out.push(lower_char(c));
            p = if check_lower(c) {
                ScanState::AfterLower
            } else if check_upper(c) {
                ScanState::AfterUpper
            } else {
                ScanState::AfterDigit
            };
            proof {
                let ghost emitted = if word_boundary(
                    p_before,
                    c,
                    replaced@.skip(k as int).len() > 1 && is_lower(replaced@.skip(k as int)[1]),
                ) {
                    seq!['_', to_lower(c)]
                } else {
                    seq![to_lower(c)]
                };
                assert(p == state_after(c));
                assert(out@ =~= out_before + emitted);
                assert(snake_rec(replaced@.skip(k as int), p_before) == emitted + snake_rec(
                    replaced@.skip(k as int + 1),
                    p,
                ));
                assert(out_before + (emitted + snake_rec(replaced@.skip(k as int + 1), p)) =~= out@
                    + snake_rec(replaced@.skip(k as int + 1), p));
            }
        }
        k = k + 1;
    }
    proof {
        assert(replaced@.skip(m as int) =~= Seq::<char>::empty());
        assert(out@ == snake_rec(replaced@, ScanState::Fresh));
    }
    let mut result: Vec<char> = Vec::new();
    if out.len() == 0 {
        result.push('_');
        proof {
            assert(result@ =~= snake_spec(replaced@));
        }
    } else if check_digit(out[0]) {
        result.push('_');
        let mut q: usize = 0;
        let olen = out.len();
        while q < olen
            invariant
                olen == out@.len(),
                q <= olen,
                result@ == seq!['_'] + out@.take(q as int),
            decreases olen - q,
        {
            result.push(out[q]);
            proof {
                assert(out@.take(q as int).push(out@[q as int]) =~= out@.take(q as int + 1));
                assert((seq!['_'] + out@.take(q as int)).push(out@[q as int]) =~= seq!['_']
                    + out@.take(q as int + 1));
            }
            q = q + 1;
        }
        proof {
            assert(out@.take(olen as int) =~= out@);
            assert(result@ =~= snake_spec(replaced@));
        }
    } else {
        result = out;
        proof {
            assert(result@ =~= snake_spec(replaced@));
        }
    }
    chars_to_string(&result)
}

} // verus!
