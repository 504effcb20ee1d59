//! Query normalization: lower case, then no white space at either end.

use vstd::prelude::*;
use vstd::string::StrSliceExecFns;

verus! {

/// The lower-case form of a string, as `str::to_lowercase` gives it: Unicode's
/// mapping, which no locale changes.
pub uninterp spec fn lowercase_of(s: Seq<char>) -> Seq<char>;

/// Whether Unicode counts a character as white space (`White_Space`), as
/// `char::is_whitespace` tells it.
pub uninterp spec fn is_white_space(c: char) -> bool;

/// `str::to_lowercase` returns a new string that depends on the characters of
/// its argument alone; that string is what `lowercase_of` names.
pub assume_specification[ str::to_lowercase ](s: &str) -> (r: String)
    ensures
        r@ == lowercase_of(s@),
;

/// `char::is_whitespace` depends on the character alone; its answer is what
/// `is_white_space` names.
pub assume_specification[ char::is_whitespace ](c: char) -> (r: bool)
    ensures
        r == is_white_space(c),
;

/// `s` without its leading white space.
pub open spec fn trim_start(s: Seq<char>) -> Seq<char>
    decreases s.len(),
{
    if s.len() > 0 && is_white_space(s.first()) {
        trim_start(s.drop_first())
    } else {
        s
    }
}

/// `s` without its trailing white space.
pub open spec fn trim_end(s: Seq<char>) -> Seq<char>
    decreases s.len(),
{
    if s.len() > 0 && is_white_space(s.last()) {
        trim_end(s.drop_last())
    } else {
        s
    }
}

/// `s` without white space at either end.
pub open spec fn trimmed(s: Seq<char>) -> Seq<char> {
    trim_end(trim_start(s))
}

/// The form in which a query is matched: lower case, trimmed.
pub open spec fn normalized(raw: Seq<char>) -> Seq<char> {
    trimmed(lowercase_of(raw))
}

/// Where the first `a` characters are white space and the next one is not,
/// trimming the start drops exactly those.
pub proof fn lemma_trim_start(s: Seq<char>, a: int)
    requires
        0 <= a <= s.len(),
        forall|i: int| 0 <= i < a ==> is_white_space(#[trigger] s[i]),
        a < s.len() ==> !is_white_space(s[a]),
    ensures
        trim_start(s) == s.skip(a),
    decreases a,
{
    if a == 0 {
        assert(s.skip(0) =~= s);
    } else {
        let t = s.drop_first();
        assert forall|i: int| 0 <= i < a - 1 implies is_white_space(#[trigger] t[i]) by {
            assert(t[i] == s[i + 1]);
        }
        lemma_trim_start(t, a - 1);
        assert(t.skip(a - 1) =~= s.skip(a));
    }
}

/// Where all from position `b` on is white space and the character before is
/// not, trimming the end keeps exactly the first `b`.
pub proof fn lemma_trim_end(s: Seq<char>, b: int)
    requires
        0 <= b <= s.len(),
        forall|i: int| b <= i < s.len() ==> is_white_space(#[trigger] s[i]),
        0 < b ==> !is_white_space(s[b - 1]),
    ensures
        trim_end(s) == s.take(b),
    decreases s.len() - b,
{
    if b == s.len() {
        assert(s.take(b) =~= s);
    } else {
        let t = s.drop_last();
        lemma_trim_end(t, b);
        assert(t.take(b) =~= s.take(b));
    }
}

/// A trimmed string neither starts nor ends with white space.
pub proof fn lemma_trimmed_ends(s: Seq<char>)
    ensures
        trimmed(s).len() > 0 ==> !is_white_space(trimmed(s).first()) && !is_white_space(
            trimmed(s).last(),
        ),
{
    lemma_trim_start_first(s);
    lemma_trim_end_last(trim_start(s));
}

proof fn lemma_trim_start_first(s: Seq<char>)
    ensures
        trim_start(s).len() > 0 ==> !is_white_space(trim_start(s).first()),
    decreases s.len(),
{
    if s.len() > 0 && is_white_space(s.first()) {
        lemma_trim_start_first(s.drop_first());
    }
}

proof fn lemma_trim_end_last(s: Seq<char>)
    ensures
        trim_end(s).len() > 0 ==> !is_white_space(trim_end(s).last()) && trim_end(s).first()
            == s.first(),
    decreases s.len(),
{
    if s.len() > 0 && is_white_space(s.last()) {
        lemma_trim_end_last(s.drop_last());
    }
}

/// Trimming twice is trimming once.
pub proof fn lemma_trimmed_idempotent(s: Seq<char>)
    ensures
        trimmed(trimmed(s)) == trimmed(s),
{
    lemma_trimmed_ends(s);
}

/// Normalizing a normalized query changes nothing, provided that the
/// lower-case mapping leaves the normalized query as it is.
pub proof fn lemma_normalized_idempotent(raw: Seq<char>)
    ensures
        lowercase_of(normalized(raw)) == normalized(raw) ==> normalized(normalized(raw))
            == normalized(raw),
{
    lemma_trimmed_idempotent(lowercase_of(raw));
}

/// `s` without white space at either end.
pub fn trim(s: &str) -> (r: &str)
    ensures
        r@ == trimmed(s@),
{
    let total: usize = s.unicode_len();
    let mut start: usize = 0;
    let mut end: usize = 0;
    let mut n: usize = 0;
    for c in it: s.chars()
        invariant
            it.seq() == s@,
            n == it.index(),
            n <= total,
            total == s@.len(),
            start <= end <= n,
            forall|i: int| 0 <= i < start ==> is_white_space(#[trigger] s@[i]),
            forall|i: int| end <= i < n ==> is_white_space(#[trigger] s@[i]),
            start < end ==> !is_white_space(s@[start as int]) && !is_white_space(s@[end - 1]),
            start == end ==> start == n,
    {
        if !c.is_whitespace() {
            if start == end {
                start = n;
            }
            end = n + 1;
        } else if start == end {
            start = n + 1;
            end = n + 1;
        }
        n += 1;
    }
    proof {
        lemma_trim_start(s@, start as int);
        let t = s@.skip(start as int);
        if start == end {
            assert(t =~= Seq::<char>::empty());
        } else {
            assert forall|i: int| end - start <= i < t.len() implies is_white_space(
                #[trigger] t[i],
            ) by {
                assert(t[i] == s@[i + start]);
            }
            lemma_trim_end(t, end - start);
        }
        assert(t.take(end - start) =~= s@.subrange(start as int, end as int));
    }
    s.substring_char(start, end)
}

/// The form in which a query is matched: lower case, without white space at
/// either end. Every string has one; it may be empty.
pub fn normalize(raw: &str) -> (r: String)
    ensures
        r@ == normalized(raw@),
{
    let lower = raw.to_lowercase();
    trim(lower.as_str()).to_owned()
}

} // verus!
