//! Searching, slicing and trimming of strings.
//!
//! A string is modelled as the sequence of its characters, and every position
//! in this module counts characters, not bytes.

use vstd::prelude::*;
use vstd::string::*;

verus! {

/// `String::push` appends one character at the end of the string.
pub assume_specification[ String::push ](s: &mut String, ch: char)
    ensures
        final(s)@ == old(s)@.push(ch),
;

/// The lower-case form of a text, as `str::to_lowercase` computes it.
pub uninterp spec fn lowercase(s: Seq<char>) -> Seq<char>;

/// `str::to_lowercase` returns the lower-case form of the text, which depends
/// on nothing but its characters. On ASCII text it maps `A` to `Z` to `a` to
/// `z`, one character at a time, and keeps every other character.
pub assume_specification[ str::to_lowercase ](s: &str) -> (r: String)
    ensures
        r@ == lowercase(s@),
        is_ascii(s) ==> r@ == ascii_lowercase(s@),
;

/// `c` with `A` to `Z` mapped to `a` to `z`.
pub open spec fn ascii_lower(c: char) -> char {
    if 'A' <= c && c <= 'Z' {
        (c as u32 + 32) as char
    } else {
        c
    }
}

/// `s` with `A` to `Z` mapped to `a` to `z`.
pub open spec fn ascii_lowercase(s: Seq<char>) -> Seq<char> {
    Seq::new(s.len(), |i: int| ascii_lower(s[i]))
}

/// The Unicode property `White_Space`.
pub open spec fn is_white_space(c: char) -> bool {
    let u = c as u32;
    ||| 0x9 <= u <= 0xd
    ||| u == 0x20
    ||| u == 0x85
    ||| u == 0xa0
    ||| u == 0x1680
    ||| 0x2000 <= u <= 0x200a
    ||| u == 0x2028
    ||| u == 0x2029
    ||| u == 0x202f
    ||| u == 0x205f
    ||| u == 0x3000
}

/// `pat` stands in `s` at position `i`.
pub open spec fn occurs_at(s: Seq<char>, pat: Seq<char>, i: int) -> bool {
    0 <= i && i + pat.len() <= s.len() && s.subrange(i, i + pat.len()) == pat
}

/// `pat` stands somewhere in `s`.
pub open spec fn contains(s: Seq<char>, pat: Seq<char>) -> bool {
    exists|i: int| occurs_at(s, pat, i)
}

/// `i` is the first position at which `pat` stands in `s`.
pub open spec fn is_first(s: Seq<char>, pat: Seq<char>, i: int) -> bool {
    occurs_at(s, pat, i) && forall|j: int| occurs_at(s, pat, j) ==> i <= j
}

/// `i` is the last position at which `pat` stands in `s`.
pub open spec fn is_last(s: Seq<char>, pat: Seq<char>, i: int) -> bool {
    occurs_at(s, pat, i) && forall|j: int| occurs_at(s, pat, j) ==> j <= i
}

/// The first position at which `pat` stands in `s`, if there is one.
pub open spec fn first(s: Seq<char>, pat: Seq<char>) -> Option<int> {
    if contains(s, pat) {
        Some(choose|i: int| is_first(s, pat, i))
    } else {
        None
    }
}

/// The last position at which `pat` stands in `s`, if there is one.
pub open spec fn last(s: Seq<char>, pat: Seq<char>) -> Option<int> {
    if contains(s, pat) {
        Some(choose|i: int| is_last(s, pat, i))
    } else {
        None
    }
}

/// `s` without the occurrences of `pat`, taken from left to right and never
/// overlapping. What the removal joins together is not searched again.
pub open spec fn remove_all(s: Seq<char>, pat: Seq<char>) -> Seq<char>
    decreases s.len(),
{
    if s.len() == 0 {
        s
    } else if pat.len() > 0 && occurs_at(s, pat, 0) {
        remove_all(s.skip(pat.len() as int), pat)
    } else {
        seq![s[0]] + remove_all(s.skip(1), pat)
    }
}

/// `s` without its leading white space.
pub open spec fn trim_start(s: Seq<char>) -> Seq<char>
    decreases s.len(),
{
    if s.len() > 0 && is_white_space(s[0]) {
        trim_start(s.skip(1))
    } else {
        s
    }
}

/// `s` without its trailing white space.
pub open spec fn trim_end(s: Seq<char>) -> Seq<char>
    decreases s.len(),
{
    if s.len() > 0 && is_white_space(s.last()) {
        trim_end(s.drop_last())
    } else {
        s
    }
}

/// `s` without its leading and trailing white space.
pub open spec fn trim(s: Seq<char>) -> Seq<char> {
    trim_end(trim_start(s))
}

/// `s` after `prefix`, or all of `s` where it does not start with it.
pub open spec fn strip_prefix(s: Seq<char>, prefix: Seq<char>) -> Seq<char> {
    if prefix.is_prefix_of(s) {
        s.skip(prefix.len() as int)
    } else {
        s
    }
}

/// `s`, or nothing where it is empty.
pub open spec fn non_empty(s: Seq<char>) -> Option<Seq<char>> {
    if s.len() == 0 {
        None
    } else {
        Some(s)
    }
}

/// The characters of an optional string.
pub open spec fn opt_view(s: Option<String>) -> Option<Seq<char>> {
    match s {
        Some(t) => Some(t@),
        None => None,
    }
}

/// The characters of an optional text, none where it is absent.
pub open spec fn or_empty(s: Option<Seq<char>>) -> Seq<char> {
    match s {
        Some(t) => t,
        None => Seq::empty(),
    }
}

/// A text that contains `pat` has a least position at which it stands.
proof fn lemma_first_exists(s: Seq<char>, pat: Seq<char>, i: int)
    requires
        occurs_at(s, pat, i),
    ensures
        exists|k: int| is_first(s, pat, k),
    decreases i,
{
    if exists|j: int| occurs_at(s, pat, j) && j < i {
        let j = choose|j: int| occurs_at(s, pat, j) && j < i;
        lemma_first_exists(s, pat, j);
    } else {
        assert(is_first(s, pat, i));
    }
}

/// A text that contains `pat` has a greatest position at which it stands.
proof fn lemma_last_exists(s: Seq<char>, pat: Seq<char>, i: int)
    requires
        occurs_at(s, pat, i),
    ensures
        exists|k: int| is_last(s, pat, k),
    decreases s.len() - i,
{
    if exists|j: int| occurs_at(s, pat, j) && i < j {
        let j = choose|j: int| occurs_at(s, pat, j) && i < j;
        lemma_last_exists(s, pat, j);
    } else {
        assert(is_last(s, pat, i));
    }
}

/// `first` is the least position at which `pat` stands in `s`.
pub proof fn lemma_first(s: Seq<char>, pat: Seq<char>)
    ensures
        first(s, pat) matches Some(i) ==> is_first(s, pat, i),
        first(s, pat) is Some <==> contains(s, pat),
{
    if contains(s, pat) {
        let i = choose|i: int| occurs_at(s, pat, i);
        lemma_first_exists(s, pat, i);
    }
}

/// `last` is the greatest position at which `pat` stands in `s`.
pub proof fn lemma_last(s: Seq<char>, pat: Seq<char>)
    ensures
        last(s, pat) matches Some(i) ==> is_last(s, pat, i),
        last(s, pat) is Some <==> contains(s, pat),
{
    if contains(s, pat) {
        let i = choose|i: int| occurs_at(s, pat, i);
        lemma_last_exists(s, pat, i);
    }
}

/// There is one first position.
pub proof fn lemma_first_is(s: Seq<char>, pat: Seq<char>, i: int)
    requires
        is_first(s, pat, i),
    ensures
        first(s, pat) == Some(i),
{
    lemma_first(s, pat);
}

/// There is one last position.
pub proof fn lemma_last_is(s: Seq<char>, pat: Seq<char>, i: int)
    requires
        is_last(s, pat, i),
    ensures
        last(s, pat) == Some(i),
{
    lemma_last(s, pat);
}

/// Removal shortens a text that holds the pattern and keeps any other.
pub proof fn lemma_remove_all(s: Seq<char>, pat: Seq<char>)
    requires
        pat.len() > 0,
    ensures
        remove_all(s, pat).len() <= s.len(),
        contains(s, pat) ==> remove_all(s, pat).len() < s.len(),
        !contains(s, pat) ==> remove_all(s, pat) == s,
    decreases s.len(),
{
    if s.len() == 0 {
    } else if occurs_at(s, pat, 0) {
        lemma_remove_all(s.skip(pat.len() as int), pat);
        assert(contains(s, pat));
    } else {
        let rest = s.skip(1);
        lemma_remove_all(rest, pat);
        if contains(s, pat) {
            let i = choose|i: int| occurs_at(s, pat, i);
            assert(rest.subrange(i - 1, i - 1 + pat.len()) =~= s.subrange(i, i + pat.len()));
            assert(occurs_at(rest, pat, i - 1));
        } else {
            if contains(rest, pat) {
                let i = choose|i: int| occurs_at(rest, pat, i);
                assert(rest.subrange(i, i + pat.len()) =~= s.subrange(i + 1, i + 1 + pat.len()));
                assert(occurs_at(s, pat, i + 1));
            }
            assert(seq![s[0]] + rest =~= s);
        }
    }
}

/// Trimming shortens a text or keeps it.
pub proof fn lemma_trim_end_len(s: Seq<char>)
    ensures
        trim_end(s).len() <= s.len(),
        trim_end(s).len() == s.len() ==> trim_end(s) == s,
    decreases s.len(),
{
    if s.len() > 0 && is_white_space(s.last()) {
        lemma_trim_end_len(s.drop_last());
    }
}

/// Trimming shortens a text or keeps it.
pub proof fn lemma_trim_start_len(s: Seq<char>)
    ensures
        trim_start(s).len() <= s.len(),
        trim_start(s).len() == s.len() ==> trim_start(s) == s,
    decreases s.len(),
{
    if s.len() > 0 && is_white_space(s[0]) {
        lemma_trim_start_len(s.skip(1));
    }
}

/// Trimming the end of a text leaves a prefix of it.
pub proof fn lemma_trim_end_prefix(s: Seq<char>)
    ensures
        trim_end(s).is_prefix_of(s),
        trim_end(s).len() > 0 ==> !is_white_space(trim_end(s).last()),
    decreases s.len(),
{
    if s.len() > 0 && is_white_space(s.last()) {
        lemma_trim_end_prefix(s.drop_last());
        assert(trim_end(s) =~= s.take(trim_end(s).len() as int));
    } else {
        assert(s =~= s.take(s.len() as int));
    }
}

/// Trimming the start of a text leaves a suffix of it.
pub proof fn lemma_trim_start_suffix(s: Seq<char>)
    ensures
        trim_start(s).is_suffix_of(s),
        trim_start(s).len() > 0 ==> !is_white_space(trim_start(s)[0]),
    decreases s.len(),
{
    if s.len() > 0 && is_white_space(s[0]) {
        lemma_trim_start_suffix(s.skip(1));
        assert(trim_start(s) =~= s.skip(s.len() - trim_start(s).len()));
    } else {
        assert(s =~= s.skip(0));
    }
}

/// Trimming the end keeps the order of prefixes.
proof fn lemma_trim_end_grows(s: Seq<char>, t: Seq<char>)
    requires
        s.is_prefix_of(t),
    ensures
        trim_end(s).is_prefix_of(trim_end(t)),
    decreases t.len(),
{
    lemma_trim_end_prefix(s);
    lemma_trim_end_prefix(t);
    if s.len() == t.len() {
        assert(s =~= t);
    } else if is_white_space(t.last()) {
        assert(s =~= t.drop_last().take(s.len() as int));
        lemma_trim_end_grows(s, t.drop_last());
    } else {
        assert(trim_end(s) =~= t.take(trim_end(s).len() as int));
    }
}

/// Trimming the start keeps the order of prefixes, but for blank texts.
pub proof fn lemma_trim_start_grows(s: Seq<char>, t: Seq<char>)
    requires
        s.is_prefix_of(t),
    ensures
        trim_start(s).len() == 0 || trim_start(s).is_prefix_of(trim_start(t)),
    decreases s.len(),
{
    if s.len() > 0 && is_white_space(s[0]) {
        assert(t[0] == s[0]);
        assert(s.skip(1) =~= t.skip(1).take(s.len() - 1));
        lemma_trim_start_grows(s.skip(1), t.skip(1));
    } else if s.len() > 0 {
        assert(t[0] == s[0]);
    }
}

/// Trimming keeps the order of prefixes.
pub proof fn lemma_trim_grows(s: Seq<char>, t: Seq<char>)
    requires
        s.is_prefix_of(t),
    ensures
        trim(s).is_prefix_of(trim(t)),
{
    lemma_trim_start_grows(s, t);
    if trim_start(s).len() > 0 {
        lemma_trim_end_grows(trim_start(s), trim_start(t));
    } else {
        assert(trim(s) =~= trim(t).take(0));
    }
}

/// Blank text at the front of a text is trimmed with it.
pub proof fn lemma_trim_blank_front(blank: Seq<char>, s: Seq<char>)
    requires
        trim_start(blank).len() == 0,
    ensures
        trim_start(blank + s) == trim_start(s),
    decreases blank.len(),
{
    if blank.len() == 0 {
        assert(blank + s =~= s);
    } else {
        assert(is_white_space(blank[0]));
        assert((blank + s).skip(1) =~= blank.skip(1) + s);
        lemma_trim_blank_front(blank.skip(1), s);
    }
}

/// The white space that is trimmed from the start is blank.
pub proof fn lemma_trimmed_is_blank(s: Seq<char>)
    ensures
        trim_start(s.take(s.len() - trim_start(s).len())).len() == 0,
        s == s.take(s.len() - trim_start(s).len()) + trim_start(s),
    decreases s.len(),
{
    lemma_trim_start_suffix(s);
    let front = s.take(s.len() - trim_start(s).len());
    assert(s =~= front + trim_start(s));
    if s.len() > 0 && is_white_space(s[0]) {
        let rest = s.skip(1);
        lemma_trim_start_suffix(rest);
        lemma_trimmed_is_blank(rest);
        assert(front.skip(1) =~= rest.take(rest.len() - trim_start(rest).len()));
    }
}

/// Trimming once is enough.
pub proof fn lemma_trim_twice(s: Seq<char>)
    ensures
        trim_start(trim(s)) == trim(s),
        trim(trim(s)) == trim(s),
{
    let u = trim_start(s);
    lemma_trim_start_suffix(s);
    lemma_trim_end_prefix(u);
    if trim(s).len() > 0 {
        assert(trim(s)[0] == u.take(trim(s).len() as int)[0]);
    }
    lemma_trim_end_of_trim(s);
}

/// A trimmed text has no trailing white space.
pub proof fn lemma_trim_end_of_trim(s: Seq<char>)
    ensures
        trim_end(trim(s)) == trim(s),
{
    lemma_trim_end_prefix(trim_start(s));
}

/// A marker that a text does not contain first stands where it is appended.
pub proof fn lemma_first_after(a: Seq<char>, tok: Seq<char>, b: Seq<char>)
    requires
        tok.len() > 0,
        forall|k: int| 0 < k < tok.len() ==> #[trigger] tok[k] != tok[0],
        !contains(a, tok),
    ensures
        first(a + tok + b, tok) == Some(a.len() as int),
{
    let s = a + tok + b;
    assert(s.subrange(a.len() as int, a.len() + tok.len() as int) =~= tok);
    assert forall|j: int| occurs_at(s, tok, j) implies a.len() <= j by {
        if j < a.len() {
            if j + tok.len() <= a.len() {
                assert(a.subrange(j, j + tok.len()) =~= s.subrange(j, j + tok.len()));
                assert(occurs_at(a, tok, j));
            } else {
                let k = a.len() - j;
                assert(s.subrange(j, j + tok.len())[k] == tok[k]);
                assert(s[a.len() as int] == tok[0]);
            }
        }
    }
    assert(is_first(s, tok, a.len() as int));
    lemma_first_is(s, tok, a.len() as int);
}

/// Trimming takes white space from the ends of a text and nothing else: what is
/// left is a part of the text with only white space around it, and it neither
/// starts nor ends with any.
pub proof fn law_trim(s: Seq<char>)
    ensures
        exists|i: int, j: int|
            #![trigger s.subrange(i, j)]
            0 <= i <= j <= s.len() && trim(s) == s.subrange(i, j) && (forall|k: int|
                0 <= k < i || j <= k < s.len() ==> is_white_space(#[trigger] s[k])) && (i < j
                ==> !is_white_space(s[i]) && !is_white_space(s[j - 1])),
{
    law_trim_start(s);
    let i = choose|i: int|
        0 <= i <= s.len() && trim_start(s) == s.skip(i) && (forall|k: int|
            0 <= k < i ==> is_white_space(#[trigger] s[k])) && (i < s.len() ==> !is_white_space(
            s[i],
        ));
    let u = s.skip(i);
    law_trim_end(u);
    let m = choose|m: int|
        0 <= m <= u.len() && trim_end(u) == u.take(m) && (forall|k: int|
            m <= k < u.len() ==> is_white_space(#[trigger] u[k])) && (m > 0 ==> !is_white_space(
            u[m - 1],
        ));
    let j = i + m;
    assert(u.take(m) =~= s.subrange(i, j));
    assert forall|k: int| 0 <= k < i || j <= k < s.len() implies is_white_space(
        #[trigger] s[k],
    ) by {
        if k >= j {
            assert(u[k - i] == s[k]);
        }
    }
    if i < j {
        assert(u[m - 1] == s[j - 1]);
    }
}

/// Trimming the start of a text takes its leading white space and nothing else.
pub proof fn law_trim_start(s: Seq<char>)
    ensures
        exists|i: int|
            0 <= i <= s.len() && trim_start(s) == #[trigger] s.skip(i) && (forall|k: int|
                0 <= k < i ==> is_white_space(#[trigger] s[k])) && (i < s.len()
                ==> !is_white_space(s[i])),
    decreases s.len(),
{
    if s.len() > 0 && is_white_space(s[0]) {
        let rest = s.skip(1);
        law_trim_start(rest);
        let m = choose|m: int|
            0 <= m <= rest.len() && trim_start(rest) == #[trigger] rest.skip(m) && (forall|k: int|
                0 <= k < m ==> is_white_space(#[trigger] rest[k])) && (m < rest.len()
                ==> !is_white_space(rest[m]));
        assert(rest.skip(m) =~= s.skip(m + 1));
        assert forall|k: int| 0 <= k < m + 1 implies is_white_space(#[trigger] s[k]) by {
            if k > 0 {
                assert(rest[k - 1] == s[k]);
            }
        }
        assert(trim_start(s) == s.skip(m + 1));
    } else {
        assert(s.skip(0) =~= s);
    }
}

/// Trimming the end of a text takes its trailing white space and nothing else.
pub proof fn law_trim_end(s: Seq<char>)
    ensures
        exists|m: int|
            0 <= m <= s.len() && trim_end(s) == #[trigger] s.take(m) && (forall|k: int|
                m <= k < s.len() ==> is_white_space(#[trigger] s[k])) && (m > 0
                ==> !is_white_space(s[m - 1])),
    decreases s.len(),
{
    if s.len() > 0 && is_white_space(s.last()) {
        let rest = s.drop_last();
        law_trim_end(rest);
        let m = choose|m: int|
            0 <= m <= rest.len() && trim_end(rest) == #[trigger] rest.take(m) && (forall|k: int|
                m <= k < rest.len() ==> is_white_space(#[trigger] rest[k])) && (m > 0
                ==> !is_white_space(rest[m - 1]));
        assert(rest.take(m) =~= s.take(m));
        assert forall|k: int| m <= k < s.len() implies is_white_space(#[trigger] s[k]) by {
            if k < rest.len() {
                assert(rest[k] == s[k]);
            }
        }
        assert(trim_end(s) == s.take(m));
    } else {
        assert(s.take(s.len() as int) =~= s);
    }
}

/// The first position of a pattern is one at which the text reads like the
/// pattern, with none before it; there is none where the text reads like it
/// nowhere.
pub proof fn law_first(s: Seq<char>, pat: Seq<char>)
    ensures
        match first(s, pat) {
            Some(i) => 0 <= i && i + pat.len() <= s.len() && s.subrange(i, i + pat.len()) == pat
                && forall|j: int|
                0 <= j < i ==> #[trigger] s.subrange(j, j + pat.len()) != pat,
            None => forall|j: int|
                0 <= j && j + pat.len() <= s.len() ==> #[trigger] s.subrange(j, j + pat.len())
                    != pat,
        },
        contains(s, pat) <==> first(s, pat) is Some,
{
    lemma_first(s, pat);
    match first(s, pat) {
        Some(i) => {
            assert forall|j: int| 0 <= j < i implies #[trigger] s.subrange(j, j + pat.len())
                != pat by {
                if s.subrange(j, j + pat.len()) == pat {
                    assert(occurs_at(s, pat, j));
                }
            }
        },
        None => {
            assert forall|j: int| 0 <= j && j + pat.len() <= s.len() implies #[trigger] s.subrange(
                j,
                j + pat.len(),
            ) != pat by {
                if s.subrange(j, j + pat.len()) == pat {
                    assert(occurs_at(s, pat, j));
                }
            }
        },
    }
}

/// The last position of a pattern is one at which the text reads like the
/// pattern, with none after it; there is none where the text reads like it
/// nowhere.
pub proof fn law_last(s: Seq<char>, pat: Seq<char>)
    ensures
        match last(s, pat) {
            Some(i) => 0 <= i && i + pat.len() <= s.len() && s.subrange(i, i + pat.len()) == pat
                && forall|j: int|
                i < j && j + pat.len() <= s.len() ==> #[trigger] s.subrange(j, j + pat.len())
                    != pat,
            None => forall|j: int|
                0 <= j && j + pat.len() <= s.len() ==> #[trigger] s.subrange(j, j + pat.len())
                    != pat,
        },
{
    lemma_last(s, pat);
    assert forall|j: int|
        0 <= j && j + pat.len() <= s.len() && #[trigger] s.subrange(j, j + pat.len())
            == pat implies occurs_at(s, pat, j) by {}
}

/// Removal takes the first occurrence of a pattern out of a text and goes on after
/// it. The text before it stays, and so does a text without the pattern.
pub proof fn law_remove_all(a: Seq<char>, pat: Seq<char>, b: Seq<char>)
    requires
        pat.len() > 0,
    ensures
        first(a + pat + b, pat) == Some(a.len() as int) ==> remove_all(a + pat + b, pat) == a
            + remove_all(b, pat),
        !contains(a, pat) ==> remove_all(a, pat) == a,
    decreases a.len(),
{
    lemma_remove_all(a, pat);
    let s = a + pat + b;
    if first(s, pat) == Some(a.len() as int) {
        lemma_first(s, pat);
        if a.len() == 0 {
            assert(s.skip(pat.len() as int) =~= b);
            assert(s.subrange(0, pat.len() as int) =~= pat);
            assert(a + remove_all(b, pat) =~= remove_all(b, pat));
        } else {
            let rest = a.skip(1);
            let t = rest + pat + b;
            assert(s.skip(1) =~= t);
            assert(!occurs_at(s, pat, 0));
            assert(t.subrange(rest.len() as int, rest.len() + pat.len() as int) =~= pat);
            assert forall|j: int| occurs_at(t, pat, j) implies rest.len() <= j by {
                assert(s.subrange(j + 1, j + 1 + pat.len()) =~= t.subrange(j, j + pat.len()));
                assert(occurs_at(s, pat, j + 1));
            }
            assert(is_first(t, pat, rest.len() as int));
            lemma_first_is(t, pat, rest.len() as int);
            law_remove_all(rest, pat, b);
            assert(seq![s[0]] + (rest + remove_all(b, pat)) =~= a + remove_all(b, pat));
        }
    }
}

/// Stripping a prefix gives the text after it, and leaves any other text alone.
pub proof fn law_strip_prefix(prefix: Seq<char>, s: Seq<char>)
    ensures
        strip_prefix(prefix + s, prefix) == s,
        !prefix.is_prefix_of(s) ==> strip_prefix(s, prefix) == s,
{
    let t = prefix + s;
    assert(prefix =~= t.take(prefix.len() as int));
    assert(t.skip(prefix.len() as int) =~= s);
}

/// Absent text and empty text stand for each other, and any other text for itself.
pub proof fn law_optional_text(s: Seq<char>)
    ensures
        s.len() > 0 ==> non_empty(s) == Some(s),
        s.len() == 0 ==> non_empty(s) is None,
        or_empty(Some(s)) == s,
        or_empty(None).len() == 0,
        opt_view(None) is None,
        forall|t: String| #[trigger] opt_view(Some(t)) == Some(t@),
{
}

/// Mapping ASCII letters to lower case keeps the length of a text and every
/// character but `A` to `Z`, which become `a` to `z`.
pub proof fn law_ascii_lowercase(s: Seq<char>, i: int)
    requires
        0 <= i < s.len(),
    ensures
        ascii_lowercase(s).len() == s.len(),
        'A' <= s[i] && s[i] <= 'Z' ==> ascii_lowercase(s)[i] as u32 == s[i] as u32 + 32,
        !('A' <= s[i] && s[i] <= 'Z') ==> ascii_lowercase(s)[i] == s[i],
{
}

/// Whether `c` has the Unicode property `White_Space`.
pub fn is_whitespace(c: char) -> (r: bool)
    ensures
        r == is_white_space(c),
{
    let u: u32 = c as u32;
    (0x9 <= u && u <= 0xd) || u == 0x20 || u == 0x85 || u == 0xa0 || u == 0x1680 || (0x2000 <= u
        && u <= 0x200a) || u == 0x2028 || u == 0x2029 || u == 0x202f || u == 0x205f || u == 0x3000
}

/// The characters of `s`, in order.
pub fn chars_of(s: &str) -> (v: Vec<char>)
    ensures
        v@ == s@,
{
    let mut v: Vec<char> = Vec::new();
    for c in it: s.chars()
        invariant
            it.seq() == s@,
            v@ == s@.take(it.index() as int),
    {
        v.push(c);
    }
    assert(s@.take(s@.len() as int) =~= s@);
    v
}

/// Whether `pat` stands in `s` at position `i`.
fn matches_at(s: &Vec<char>, pat: &Vec<char>, i: usize) -> (r: bool)
    ensures
        r == occurs_at(s@, pat@, i as int),
{
    let n: usize = s.len();
    let m: usize = pat.len();
    if m > n || i > n - m {
        return false;
    }
    let mut k: usize = 0;
    while k < m
        invariant
            n == s@.len(),
            m == pat@.len(),
            i + m <= n,
            k <= m,
            forall|j: int| 0 <= j < k ==> s@[i + j] == pat@[j],
        decreases m - k,
    {
        if s[i + k] != pat[k] {
            assert(s@.subrange(i as int, i + m)[k as int] != pat@[k as int]);
            return false;
        }
        k += 1;
    }
    assert(s@.subrange(i as int, i + m) =~= pat@);
    true
}

/// The first position at which `pat` stands in `s`.
pub fn find(s: &str, pat: &str) -> (r: Option<usize>)
    ensures
        match r {
            Some(i) => first(s@, pat@) == Some(i as int),
            None => first(s@, pat@) is None,
        },
        r matches Some(i) ==> i + pat@.len() <= s@.len() <= usize::MAX,
{
    let sc: Vec<char> = chars_of(s);
    let pc: Vec<char> = chars_of(pat);
    let n: usize = sc.len();
    let mut i: usize = 0;
    while i < n
        invariant
            n == sc@.len(),
            i <= n,
            sc@ == s@,
            pc@ == pat@,
            forall|j: int| 0 <= j < i ==> !occurs_at(s@, pat@, j),
        decreases n - i,
    {
        if matches_at(&sc, &pc, i) {
            proof {
                assert(is_first(s@, pat@, i as int));
                lemma_first_is(s@, pat@, i as int);
            }
            return Some(i);
        }
        i += 1;
    }
    if matches_at(&sc, &pc, n) {
        proof {
            assert(is_first(s@, pat@, n as int));
            lemma_first_is(s@, pat@, n as int);
        }
        return Some(n);
    }
    proof {
        assert forall|j: int| !occurs_at(s@, pat@, j) by {}
    }
    None
}

/// The last position at which `pat` stands in `s`.
pub fn rfind(s: &str, pat: &str) -> (r: Option<usize>)
    ensures
        match r {
            Some(i) => last(s@, pat@) == Some(i as int),
            None => last(s@, pat@) is None,
        },
        r matches Some(i) ==> i + pat@.len() <= s@.len() <= usize::MAX,
{
    let sc: Vec<char> = chars_of(s);
    let pc: Vec<char> = chars_of(pat);
    let n: usize = sc.len();
    if matches_at(&sc, &pc, n) {
        proof {
            assert(is_last(s@, pat@, n as int));
            lemma_last_is(s@, pat@, n as int);
        }
        return Some(n);
    }
    let mut i: usize = n;
    while i > 0
        invariant
            n == sc@.len(),
            i <= n,
            sc@ == s@,
            pc@ == pat@,
            forall|j: int| i <= j ==> !occurs_at(s@, pat@, j),
        decreases i,
    {
        i -= 1;
        if matches_at(&sc, &pc, i) {
            proof {
                assert(is_last(s@, pat@, i as int));
                lemma_last_is(s@, pat@, i as int);
            }
            return Some(i);
        }
    }
    None
}

/// Whether `pat` stands somewhere in `s`.
pub fn has(s: &str, pat: &str) -> (r: bool)
    ensures
        r == contains(s@, pat@),
{
    let found: Option<usize> = find(s, pat);
    proof {
        lemma_first(s@, pat@);
    }
    found.is_some()
}

/// Whether `s` starts with `prefix`.
pub fn starts_with(s: &str, prefix: &str) -> (r: bool)
    ensures
        r == prefix@.is_prefix_of(s@),
{
    let sc: Vec<char> = chars_of(s);
    let pc: Vec<char> = chars_of(prefix);
    matches_at(&sc, &pc, 0)
}

/// Whether two texts have the same characters.
pub fn same(s: &str, t: &str) -> (r: bool)
    ensures
        r == (s@ == t@),
{
    let sc: Vec<char> = chars_of(s);
    let tc: Vec<char> = chars_of(t);
    if sc.len() != tc.len() {
        return false;
    }
    let r: bool = matches_at(&sc, &tc, 0);
    assert(s@.subrange(0, s@.len() as int) =~= s@);
    r
}

/// `c` with `A` to `Z` mapped to `a` to `z`.
fn to_ascii_lower(c: char) -> (r: char)
    ensures
        r == ascii_lower(c),
{
    if 'A' <= c && c <= 'Z' {
        let b: u8 = c as u8;
        (b + 32) as char
    } else {
        c
    }
}

/// Whether `s` is `lower` but for upper-case ASCII letters.
pub fn same_ignoring_ascii_case(s: &str, lower: &str) -> (r: bool)
    ensures
        r == (ascii_lowercase(s@) == lower@),
{
    let sc: Vec<char> = chars_of(s);
    let tc: Vec<char> = chars_of(lower);
    let n: usize = sc.len();
    if n != tc.len() {
        assert(ascii_lowercase(s@).len() != lower@.len());
        return false;
    }
    let mut i: usize = 0;
    while i < n
        invariant
            sc@ == s@,
            tc@ == lower@,
            n == sc@.len(),
            n == tc@.len(),
            i <= n,
            forall|j: int| 0 <= j < i ==> ascii_lower(s@[j]) == lower@[j],
        decreases n - i,
    {
        if to_ascii_lower(sc[i]) != tc[i] {
            assert(ascii_lowercase(s@)[i as int] != lower@[i as int]);
            return false;
        }
        i += 1;
    }
    assert(ascii_lowercase(s@) =~= lower@);
    true
}

/// The number of characters of `s`.
pub fn length(s: &str) -> (n: usize)
    ensures
        n == s@.len(),
{
    s.unicode_len()
}

/// The part of `s` from position `from` up to position `to`.
pub fn slice<'a>(s: &'a str, from: usize, to: usize) -> (r: &'a str)
    requires
        from <= to <= s@.len(),
    ensures
        r@ == s@.subrange(from as int, to as int),
{
    s.substring_char(from, to)
}

/// `s` before position `to`.
pub fn take<'a>(s: &'a str, to: usize) -> (r: &'a str)
    requires
        to <= s@.len(),
    ensures
        r@ == s@.take(to as int),
{
    slice(s, 0, to)
}

/// `s` from position `from` on.
pub fn skip<'a>(s: &'a str, from: usize) -> (r: &'a str)
    requires
        from <= s@.len(),
    ensures
        r@ == s@.skip(from as int),
{
    let n: usize = length(s);
    slice(s, from, n)
}

/// `s` after `prefix`, or all of `s` where it does not start with it.
pub fn without_prefix<'a>(s: &'a str, prefix: &str) -> (r: &'a str)
    ensures
        r@ == strip_prefix(s@, prefix@),
{
    if starts_with(s, prefix) {
        let n: usize = length(prefix);
        skip(s, n)
    } else {
        s
    }
}

/// `a` followed by `b`.
pub fn concat(a: &str, b: &str) -> (r: String)
    ensures
        r@ == a@ + b@,
{
    let mut r: String = String::new();
    r.append(a);
    r.append(b);
    assert(r@ =~= a@ + b@);
    r
}

/// `s` without the occurrences of `pat`, from left to right.
pub fn without(s: &str, pat: &str) -> (r: String)
    requires
        pat@.len() > 0,
    ensures
        r@ == remove_all(s@, pat@),
{
    let sc: Vec<char> = chars_of(s);
    let pc: Vec<char> = chars_of(pat);
    let n: usize = sc.len();
    let m: usize = pc.len();
    let mut out: String = String::new();
    let mut k: usize = 0;
    assert(s@.skip(0) =~= s@);
    while k < n
        invariant
            n == sc@.len(),
            m == pc@.len(),
            m > 0,
            k <= n,
            sc@ == s@,
            pc@ == pat@,
            remove_all(s@, pat@) == out@ + remove_all(s@.skip(k as int), pat@),
        decreases n - k,
    {
        let ghost rest = s@.skip(k as int);
        proof {
            assert(rest.len() > 0);
            if k + m <= n {
                assert(rest.subrange(0, m as int) =~= s@.subrange(k as int, k + m));
            }
            assert(occurs_at(rest, pat@, 0) == occurs_at(s@, pat@, k as int));
        }
        if matches_at(&sc, &pc, k) {
            proof {
                assert(rest.skip(m as int) =~= s@.skip(k + m));
            }
            k += m;
        } else {
            let c: char = sc[k];
            let ghost before = out@;
            out.push(c);
            proof {
                assert(rest.skip(1) =~= s@.skip(k + 1));
                assert(out@ + remove_all(rest.skip(1), pat@) =~= before + (seq![c] + remove_all(
                    rest.skip(1),
                    pat@,
                )));
            }
            k += 1;
        }
    }
    assert(out@ + remove_all(s@.skip(n as int), pat@) =~= out@);
    out
}

/// `s` without its trailing white space.
pub fn trimmed_end<'a>(s: &'a str) -> (r: &'a str)
    ensures
        r@ == trim_end(s@),
{
    let sc: Vec<char> = chars_of(s);
    let mut b: usize = sc.len();
    assert(s@.take(b as int) =~= s@);
    while b > 0 && is_whitespace(sc[b - 1])
        invariant
            sc@ == s@,
            b <= sc@.len(),
            trim_end(s@) == trim_end(s@.take(b as int)),
        decreases b,
    {
        assert(s@.take(b as int).drop_last() =~= s@.take(b - 1));
        assert(s@.take(b as int).last() == s@[b - 1]);
        b -= 1;
    }
    assert(b > 0 ==> s@.take(b as int).last() == s@[b - 1]);
    take(s, b)
}

/// `s` without its leading white space.
pub fn trimmed_start<'a>(s: &'a str) -> (r: &'a str)
    ensures
        r@ == trim_start(s@),
{
    let sc: Vec<char> = chars_of(s);
    let n: usize = sc.len();
    let mut a: usize = 0;
    assert(s@.skip(0) =~= s@);
    while a < n && is_whitespace(sc[a])
        invariant
            sc@ == s@,
            n == sc@.len(),
            a <= n,
            trim_start(s@) == trim_start(s@.skip(a as int)),
        decreases n - a,
    {
        assert(s@.skip(a as int).skip(1) =~= s@.skip(a + 1));
        a += 1;
    }
    skip(s, a)
}

/// `s` without its leading and trailing white space.
pub fn trimmed<'a>(s: &'a str) -> (r: &'a str)
    ensures
        r@ == trim(s@),
{
    trimmed_end(trimmed_start(s))
}

/// `s` as an owned string, or nothing where it is empty.
pub fn some_if_non_empty(s: &str) -> (r: Option<String>)
    ensures
        opt_view(r) == non_empty(s@),
{
    if s.is_empty() {
        None
    } else {
        Some(s.to_owned())
    }
}

} // verus!
