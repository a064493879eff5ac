//! Character-level helpers on process image names: ASCII case folding,
//! substring search and whitespace trimming.

use vstd::prelude::*;
use vstd::std_specs::iter::IteratorSpec;
use vstd::string::*;

verus! {

/// The ASCII lower-case form of a character; anything but `A..=Z` is itself.
pub open spec fn ascii_lower(c: char) -> char {
    if 'A' <= c && c <= 'Z' {
        ((c as u8) + 32) as char
    } else {
        c
    }
}

/// A sequence of characters with every ASCII capital folded to lower case.
pub open spec fn lowered(s: Seq<char>) -> Seq<char> {
    Seq::new(s.len(), |i: int| ascii_lower(s[i]))
}

/// `needle` stands in `hay` starting at index `i`.
pub open spec fn occurs_at(hay: Seq<char>, needle: Seq<char>, i: int) -> bool {
    &&& 0 <= i
    &&& i + needle.len() <= hay.len()
    &&& hay.subrange(i, i + needle.len()) == needle
}

/// `needle` stands somewhere in `hay` as a contiguous run.
pub open spec fn has_run(hay: Seq<char>, needle: Seq<char>) -> bool {
    exists|i: int| occurs_at(hay, needle, i)
}

/// Folds one character to ASCII lower case.
pub fn to_ascii_lower(c: char) -> (r: char)
    ensures
        r == ascii_lower(c),
{
    if 'A' <= c && c <= 'Z' {
        ((c as u8) + 32) as char
    } else {
        c
    }
}

/// The characters of a string, one element each.
pub fn chars_of(s: &str) -> (v: Vec<char>)
    ensures
        v@ == s@,
{
    broadcast use vstd::string::group_string_axioms;

    let n: usize = s.unicode_len();
    let mut v: Vec<char> = Vec::new();
    let mut rest = s.chars();
    let mut more: bool = true;
    while more
        invariant
            n == s@.len(),
            v@.len() <= n,
            v@ + rest.remaining() == s@,
            !more ==> rest.remaining().len() == 0,
        decreases n - v@.len() + (if more { 1int } else { 0 }),
    {
        let ghost before = rest.remaining();
        match rest.next() {
            Some(c) => {
                v.push(c);
                assert(v@ + rest.remaining() =~= s@) by {
                    assert(before =~= seq![c] + before.drop_first());
                }
            },
            None => {
                more = false;
            },
        }
    }
    assert(v@ =~= v@ + rest.remaining());
    v
}

/// Whether `needle` occurs at index `i` of `hay` once `hay` is folded to lower case.
fn lowered_match_at(hay: &Vec<char>, needle: &Vec<char>, i: usize) -> (r: bool)
    requires
        i + needle@.len() <= hay@.len(),
    ensures
        r == occurs_at(lowered(hay@), needle@, i as int),
{
    let n: usize = hay.len();
    let m: usize = needle.len();
    let mut j: usize = 0;
    while j < m
        invariant
            n == hay@.len(),
            m == needle@.len(),
            j <= m,
            i + m <= n,
            forall|k: int| 0 <= k < j ==> lowered(hay@)[i + k] == needle@[k],
        decreases m - j,
    {
        if to_ascii_lower(hay[i + j]) != needle[j] {
            proof {
                let sub = lowered(hay@).subrange(i as int, i + m);
                assert(sub[j as int] == lowered(hay@)[i + j]);
            }
            return false;
        }
        j = j + 1;
    }
    assert(lowered(hay@).subrange(i as int, i + m) =~= needle@);
    true
}

/// Case-insensitive (ASCII) substring test: whether `needle`, given in lower
/// case, occurs in `hay` after folding `hay` to lower case.
pub fn lowered_contains(hay: &Vec<char>, needle: &str) -> (r: bool)
    ensures
        r == has_run(lowered(hay@), needle@),
{
    let pat: Vec<char> = chars_of(needle);
    let n: usize = hay.len();
    let m: usize = pat.len();
    if m > n {
        return false;
    }
    let last: usize = n - m;
    let mut i: usize = 0;
    while i < last
        invariant
            pat@ == needle@,
            n == hay@.len(),
            m == pat@.len(),
            last == n - m,
            i <= last,
            forall|k: int| 0 <= k < i ==> !occurs_at(lowered(hay@), needle@, k),
        decreases last - i,
    {
        if lowered_match_at(hay, &pat, i) {
            return true;
        }
        i = i + 1;
    }
    lowered_match_at(hay, &pat, last)
}

/// The characters that count as white space: those that Unicode marks as
/// `White_Space`.
pub open spec fn is_space(c: char) -> bool {
    let u = c as u32;
    ||| 0x09 <= u <= 0x0D
    ||| u == 0x20
    ||| u == 0x85
    ||| u == 0xA0
    ||| u == 0x1680
    ||| 0x2000 <= u <= 0x200A
    ||| u == 0x2028
    ||| u == 0x2029
    ||| u == 0x202F
    ||| u == 0x205F
    ||| u == 0x3000
}

/// The index of the first character at or after `from` that is no white
/// space; the length of `s` where there is none.
pub open spec fn skip_spaces(s: Seq<char>, from: int) -> int
    decreases s.len() - from,
{
    if 0 <= from < s.len() && is_space(s[from]) {
        skip_spaces(s, from + 1)
    } else {
        from
    }
}

/// The index just past the last character before `to` that is no white
/// space; 0 where there is none.
pub open spec fn drop_spaces(s: Seq<char>, to: int) -> int
    decreases to,
{
    if 0 < to <= s.len() && is_space(s[to - 1]) {
        drop_spaces(s, to - 1)
    } else {
        to
    }
}

/// `s` without its leading and trailing white space.
pub open spec fn trimmed(s: Seq<char>) -> Seq<char> {
    let start = skip_spaces(s, 0);
    let end = drop_spaces(s, s.len() as int);
    if start < end {
        s.subrange(start, end)
    } else {
        Seq::empty()
    }
}

/// What `trimmed` cuts off is white space, and what it leaves neither
/// starts nor ends with white space.
pub proof fn lemma_trimmed(s: Seq<char>)
    ensures
        ({
            let start = skip_spaces(s, 0);
            let end = drop_spaces(s, s.len() as int);
            &&& 0 <= start <= s.len()
            &&& 0 <= end <= s.len()
            &&& forall|i: int| 0 <= i < start ==> is_space(s[i])
            &&& forall|i: int| end <= i < s.len() ==> is_space(s[i])
            &&& start < s.len() ==> !is_space(s[start])
            &&& 0 < end ==> !is_space(s[end - 1])
            &&& start < s.len() ==> start < end
        }),
        trimmed(s).len() > 0 ==> !is_space(trimmed(s).first()) && !is_space(trimmed(s).last()),
{
    lemma_skip_spaces(s, 0);
    lemma_drop_spaces(s, s.len() as int);
    let start = skip_spaces(s, 0);
    let end = drop_spaces(s, s.len() as int);
    if start < s.len() && end <= start {
        assert(is_space(s[start]));
    }
}

proof fn lemma_skip_spaces(s: Seq<char>, from: int)
    requires
        0 <= from <= s.len(),
    ensures
        from <= skip_spaces(s, from) <= s.len(),
        forall|i: int| from <= i < skip_spaces(s, from) ==> is_space(s[i]),
        skip_spaces(s, from) < s.len() ==> !is_space(s[skip_spaces(s, from)]),
    decreases s.len() - from,
{
    if from < s.len() && is_space(s[from]) {
        lemma_skip_spaces(s, from + 1);
    }
}

proof fn lemma_drop_spaces(s: Seq<char>, to: int)
    requires
        0 <= to <= s.len(),
    ensures
        0 <= drop_spaces(s, to) <= to,
        forall|i: int| drop_spaces(s, to) <= i < to ==> is_space(s[i]),
        0 < drop_spaces(s, to) ==> !is_space(s[drop_spaces(s, to) - 1]),
    decreases to,
{
    if 0 < to && is_space(s[to - 1]) {
        lemma_drop_spaces(s, to - 1);
    }
}

/// Input that holds nothing but white space trims to nothing.
pub proof fn lemma_blank_trims_to_nothing(s: Seq<char>)
    requires
        forall|i: int| 0 <= i < s.len() ==> is_space(s[i]),
    ensures
        trimmed(s).len() == 0,
{
    lemma_skip_spaces_over_blank(s, 0);
    lemma_drop_spaces_over_blank(s, s.len() as int);
}

proof fn lemma_drop_spaces_over_blank(s: Seq<char>, to: int)
    requires
        0 <= to <= s.len(),
        forall|i: int| 0 <= i < s.len() ==> is_space(s[i]),
    ensures
        drop_spaces(s, to) == 0,
    decreases to,
{
    if to > 0 {
        lemma_drop_spaces_over_blank(s, to - 1);
    }
}

proof fn lemma_skip_spaces_over_blank(s: Seq<char>, from: int)
    requires
        0 <= from <= s.len(),
        forall|i: int| 0 <= i < s.len() ==> is_space(s[i]),
    ensures
        skip_spaces(s, from) == s.len(),
    decreases s.len() - from,
{
    if from < s.len() {
        lemma_skip_spaces_over_blank(s, from + 1);
    }
}

/// Whether a character is white space.
pub fn is_whitespace(c: char) -> (r: bool)
    ensures
        r == is_space(c),
{
    let u: u32 = c as u32;
    (0x09 <= u && u <= 0x0D) || u == 0x20 || u == 0x85 || u == 0xA0 || u == 0x1680 || (0x2000 <= u
        && u <= 0x200A) || u == 0x2028 || u == 0x2029 || u == 0x202F || u == 0x205F || u == 0x3000
}

/// Removes leading and trailing white space.
pub fn trim(s: &str) -> (r: String)
    ensures
        r@ == trimmed(s@),
{
    let chars: Vec<char> = chars_of(s);
    let n: usize = chars.len();
    let mut start: usize = 0;
    while start < n && is_whitespace(chars[start])
        invariant
            chars@ == s@,
            n == chars@.len(),
            start <= n,
            skip_spaces(s@, 0) == skip_spaces(s@, start as int),
        decreases n - start,
    {
        start = start + 1;
    }
    let mut end: usize = n;
    while end > 0 && is_whitespace(chars[end - 1])
        invariant
            chars@ == s@,
            n == chars@.len(),
            end <= n,
            drop_spaces(s@, n as int) == drop_spaces(s@, end as int),
        decreases end,
    {
        end = end - 1;
    }
    if start < end {
        String::from_str(s.substring_char(start, end))
    } else {
        String::new()
    }
}

} // verus!
