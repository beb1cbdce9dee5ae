//! Text primitives of the parser, stated over the characters of a `str`.
use nom::FindSubstring;
use vstd::prelude::*;

verus! {

/// The characters with the Unicode `White_Space` property, which is what
/// `char::is_whitespace` and `str::trim` go by.
pub open spec fn is_white_space(c: char) -> bool {
    let u = c as u32;
    (0x09 <= u && u <= 0x0d) || u == 0x20 || u == 0x85 || u == 0xa0 || u == 0x1680 || (0x2000
        <= u && u <= 0x200a) || u == 0x2028 || u == 0x2029 || u == 0x202f || u == 0x205f || u
        == 0x3000
}

/// `s` without its leading white space.
pub open spec fn trim_start(s: Seq<char>) -> Seq<char>
    decreases s.len(),
{
    if s.len() > 0 && is_white_space(s[0]) {
        trim_start(s.drop_first())
    } else {
        s
    }
}

/// `s` without its trailing white space.
pub open spec fn trim_end(s: Seq<char>) -> Seq<char>
    decreases s.len(),
{
    if s.len() > 0 && is_white_space(s.last()) {
        trim_end(s.drop_last())
    } else {
        s
    }
}

/// `s` without white space at either end.
pub open spec fn trimmed(s: Seq<char>) -> Seq<char> {
    trim_end(trim_start(s))
}

/// Whether `p` occurs in `s` starting at position `i`.
pub open spec fn occurs_at(s: Seq<char>, p: Seq<char>, i: int) -> bool {
    0 <= i && i + p.len() <= s.len() && s.subrange(i, i + p.len()) == p
}

/// The first position at or after `i` where `p` occurs in `s`.
pub open spec fn find_from(s: Seq<char>, p: Seq<char>, i: int) -> Option<int>
    decreases s.len() + 1 - i,
{
    if i < 0 || i + p.len() > s.len() {
        None
    } else if occurs_at(s, p, i) {
        Some(i)
    } else {
        find_from(s, p, i + 1)
    }
}

/// The first position where `p` occurs in `s`.
pub open spec fn first_index(s: Seq<char>, p: Seq<char>) -> Option<int> {
    find_from(s, p, 0)
}

/// Splits `s` at the first `sep`: the text after that `sep`, and the text
/// before it. Where `sep` does not occur, all of `s` is the text before.
pub open spec fn split_spec(sep: Seq<char>, s: Seq<char>) -> (Seq<char>, Seq<char>) {
    match first_index(s, sep) {
        Some(i) => (s.subrange(i + sep.len(), s.len() as int), s.subrange(0, i)),
        None => (Seq::empty(), s),
    }
}

/// Relies on nom's `FindSubstring::find_substring` for `&str`, which is
/// `str::find`: the byte offset of the first occurrence of `sep`; the text is
/// split at that offset with `str::split_at`.
#[verifier::external_body]
fn find_and_split<'a>(input: &'a str, sep: &str) -> (r: Option<(&'a str, &'a str)>)
    ensures
        match r {
            Some((before, after)) => first_index(input@, sep@) == Some(before@.len() as int)
                && before@ + after@ == input@,
            None => first_index(input@, sep@) is None,
        },
{
    match input.find_substring(sep) {
        Some(index) => Some(input.split_at(index)),
        None => None,
    }
}

/// Relies on `str::trim`: the text without leading and trailing white space.
#[verifier::external_body]
pub fn trim<'a>(s: &'a str) -> (r: &'a str)
    ensures
        r@ == trimmed(s@),
{
    s.trim()
}

/// Relies on `str::contains` with a `char` pattern.
#[verifier::external_body]
pub fn contains_char(s: &str, c: char) -> (r: bool)
    ensures
        r == s@.contains(c),
{
    s.contains(c)
}

/// Splits `input` at the first `separator`, which is consumed: returns the
/// text after it and the text before it.
pub fn split_text<'a>(separator: &str, input: &'a str) -> (r: (&'a str, &'a str))
    ensures
        (r.0@, r.1@) == split_spec(separator@, input@),
{
    match find_and_split(input, separator) {
        Some((text, rest)) => {
            let n = rest.unicode_len();
            let k = separator.unicode_len();
            assert(occurs_at(input@, separator@, text@.len() as int)) by {
                lemma_find_from_occurs(input@, separator@, 0);
            }
            assert(rest@.subrange(0, k as int) =~= separator@) by {
                assert(input@.subrange(text@.len() as int, text@.len() + k) =~= rest@.subrange(0, k as int));
            }
            let after = rest.substring_char(k, n);
            assert(after@ =~= input@.subrange(text@.len() + k, input@.len() as int));
            assert(text@ =~= input@.subrange(0, text@.len() as int));
            (after, text)
        },
        None => {
            proof {
                reveal_strlit("");
            }
            ("", input)
        },
    }
}

/// What `find_from` returns is a place where the pattern occurs.
pub proof fn lemma_find_from_occurs(s: Seq<char>, p: Seq<char>, i: int)
    ensures
        find_from(s, p, i) matches Some(j) ==> occurs_at(s, p, j) && i <= j,
    decreases s.len() + 1 - i,
{
    if i >= 0 && i + p.len() <= s.len() && !occurs_at(s, p, i) {
        lemma_find_from_occurs(s, p, i + 1);
    }
}

/// Trimming never makes a text longer.
pub proof fn lemma_trimmed_len(s: Seq<char>)
    ensures
        trimmed(s).len() <= s.len(),
{
    lemma_trim_start_len(s);
    lemma_trim_end_len(trim_start(s));
}

proof fn lemma_trim_start_len(s: Seq<char>)
    ensures
        trim_start(s).len() <= s.len(),
    decreases s.len(),
{
    if s.len() > 0 && is_white_space(s[0]) {
        lemma_trim_start_len(s.drop_first());
    }
}

proof fn lemma_trim_end_len(s: Seq<char>)
    ensures
        trim_end(s).len() <= s.len(),
    decreases s.len(),
{
    if s.len() > 0 && is_white_space(s.last()) {
        lemma_trim_end_len(s.drop_last());
    }
}

/// The two parts of a split together are no longer than the text, and the
/// part after the separator is empty where the separator does not occur.
pub proof fn lemma_split_len(sep: Seq<char>, s: Seq<char>)
    ensures
        split_spec(sep, s).0.len() + split_spec(sep, s).1.len() <= s.len(),
        first_index(s, sep) is None ==> split_spec(sep, s).0.len() == 0,
{
    lemma_find_from_occurs(s, sep, 0);
}

/// Whether every character of `w` is white space.
pub open spec fn all_white_space(w: Seq<char>) -> bool {
    forall|i: int| 0 <= i < w.len() ==> is_white_space(#[trigger] w[i])
}

/// `find_from` passes over no place where the pattern occurs.
pub proof fn lemma_find_from_is_first(s: Seq<char>, p: Seq<char>, i: int)
    requires
        0 <= i,
    ensures
        find_from(s, p, i) matches Some(j) ==> forall|k: int| i <= k < j ==> !occurs_at(s, p, k),
        find_from(s, p, i) is None ==> forall|k: int| i <= k ==> !occurs_at(s, p, k),
    decreases s.len() + 1 - i,
{
    if i + p.len() <= s.len() && !occurs_at(s, p, i) {
        lemma_find_from_is_first(s, p, i + 1);
    }
}

/// A place where the pattern occurs, with none before it from `i` on, is
/// what `find_from` finds.
pub proof fn lemma_find_from_finds(s: Seq<char>, p: Seq<char>, i: int, j: int)
    requires
        0 <= i <= j,
        occurs_at(s, p, j),
        forall|k: int| i <= k < j ==> !occurs_at(s, p, k),
    ensures
        find_from(s, p, i) == Some(j),
    decreases j - i,
{
    if i < j {
        lemma_find_from_finds(s, p, i + 1, j);
    }
}

/// Where the pattern occurs nowhere from `i` on, `find_from` finds nothing.
pub proof fn lemma_find_from_nothing(s: Seq<char>, p: Seq<char>, i: int)
    requires
        0 <= i,
        forall|k: int| i <= k ==> !occurs_at(s, p, k),
    ensures
        find_from(s, p, i) is None,
    decreases s.len() + 1 - i,
{
    if i + p.len() <= s.len() {
        lemma_find_from_nothing(s, p, i + 1);
    }
}

/// Where `p` first occurs right after `x`, it still does so whatever follows,
/// and `x` alone holds no `p`: the split at `p` gives back `x` and what follows.
pub proof fn lemma_split_after(x: Seq<char>, p: Seq<char>, y: Seq<char>)
    requires
        p.len() > 0,
        first_index(x + p, p) == Some(x.len() as int),
    ensures
        first_index(x + p + y, p) == Some(x.len() as int),
        first_index(x, p) is None,
        split_spec(p, x + p + y) == (y, x),
        split_spec(p, x) == (Seq::<char>::empty(), x),
{
    let s1 = x + p;
    let s2 = x + p + y;
    let n = p.len() as int;
    lemma_find_from_is_first(s1, p, 0);
    assert forall|k: int| 0 <= k < x.len() implies !occurs_at(s2, p, k) by {
        if occurs_at(s2, p, k) {
            assert(s1.subrange(k, k + n) =~= s2.subrange(k, k + n));
            assert(occurs_at(s1, p, k));
        }
    }
    assert(s2.subrange(x.len() as int, x.len() + n) =~= p);
    lemma_find_from_finds(s2, p, 0, x.len() as int);
    assert forall|k: int| 0 <= k implies !occurs_at(x, p, k) by {
        if occurs_at(x, p, k) {
            assert(s1.subrange(k, k + n) =~= x.subrange(k, k + n));
            assert(occurs_at(s1, p, k));
        }
    }
    lemma_find_from_nothing(x, p, 0);
    assert(s2.subrange(x.len() + n, s2.len() as int) =~= y);
    assert(s2.subrange(0, x.len() as int) =~= x);
}

/// White space in front of a text is trimmed away.
pub proof fn lemma_trim_start_skips(w: Seq<char>, s: Seq<char>)
    requires
        all_white_space(w),
    ensures
        trim_start(w + s) == trim_start(s),
    decreases w.len(),
{
    if w.len() > 0 {
        assert((w + s)[0] == w[0]);
        assert((w + s).drop_first() =~= w.drop_first() + s);
        lemma_trim_start_skips(w.drop_first(), s);
    } else {
        assert(w + s =~= s);
    }
}

/// White space after a text is trimmed away.
pub proof fn lemma_trim_end_skips(s: Seq<char>, w: Seq<char>)
    requires
        all_white_space(w),
    ensures
        trim_end(s + w) == trim_end(s),
    decreases w.len(),
{
    if w.len() > 0 {
        assert((s + w).last() == w.last());
        assert((s + w).drop_last() =~= s + w.drop_last());
        lemma_trim_end_skips(s, w.drop_last());
    } else {
        assert(s + w =~= s);
    }
}

/// Trimming the start of a text with white space after it: the white space
/// stays, unless nothing but white space is left.
pub proof fn lemma_trim_start_before_white(f: Seq<char>, w: Seq<char>)
    requires
        all_white_space(w),
    ensures
        trim_start(f).len() > 0 ==> trim_start(f + w) == trim_start(f) + w,
        trim_start(f).len() == 0 ==> trim_start(f + w).len() == 0,
    decreases f.len(),
{
    if f.len() == 0 {
        assert(f + w =~= Seq::<char>::empty() + w);
        lemma_trim_start_skips(w, Seq::<char>::empty());
    } else if is_white_space(f[0]) {
        assert((f + w)[0] == f[0]);
        assert((f + w).drop_first() =~= f.drop_first() + w);
        lemma_trim_start_before_white(f.drop_first(), w);
    } else {
        assert((f + w)[0] == f[0]);
    }
}

/// Padding a text with white space on either side does not change what it
/// trims to.
pub proof fn lemma_trim_ignores_padding(w1: Seq<char>, f: Seq<char>, w2: Seq<char>)
    requires
        all_white_space(w1),
        all_white_space(w2),
    ensures
        trimmed(w1 + f + w2) == trimmed(f),
{
    assert(w1 + f + w2 =~= w1 + (f + w2));
    lemma_trim_start_skips(w1, f + w2);
    lemma_trim_start_before_white(f, w2);
    if trim_start(f).len() > 0 {
        lemma_trim_end_skips(trim_start(f), w2);
    } else {
        assert(trim_start(f + w2) =~= trim_start(f));
    }
}

/// A text that is its own trimmed form neither starts nor ends with white
/// space.
pub proof fn lemma_trimmed_ends(f: Seq<char>)
    requires
        trimmed(f) == f,
        f.len() > 0,
    ensures
        !is_white_space(f[0]),
        !is_white_space(f.last()),
{
    lemma_trim_start_len(f);
    lemma_trim_end_len(trim_start(f));
    if is_white_space(f[0]) {
        lemma_trim_start_len(f.drop_first());
    }
    assert(trim_start(f) == f);
    if is_white_space(f.last()) {
        lemma_trim_end_len(f.drop_last());
    }
}

} // verus!
