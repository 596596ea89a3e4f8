//! Character-level text operations over string slices, each stated over the
//! string's sequence of characters.

use vstd::prelude::*;
use vstd::string::*;

verus! {

broadcast use vstd::string::group_string_axioms;

/// The characters with the Unicode `White_Space` property: the ones that
/// `char::is_whitespace` accepts.
pub open spec fn is_white_space(c: char) -> bool {
    ||| '\u{9}' <= c <= '\u{d}'
    ||| c == ' '
    ||| c == '\u{85}'
    ||| c == '\u{a0}'
    ||| c == '\u{1680}'
    ||| '\u{2000}' <= c <= '\u{200a}'
    ||| c == '\u{2028}'
    ||| c == '\u{2029}'
    ||| c == '\u{202f}'
    ||| c == '\u{205f}'
    ||| c == '\u{3000}'
}

/// Whether `c` is white space.
pub fn is_whitespace(c: char) -> (r: bool)
    ensures
        r == is_white_space(c),
{
    ('\u{9}' <= c && c <= '\u{d}') || c == ' ' || c == '\u{85}' || c == '\u{a0}' || c
        == '\u{1680}' || ('\u{2000}' <= c && c <= '\u{200a}') || c == '\u{2028}' || c
        == '\u{2029}' || c == '\u{202f}' || c == '\u{205f}' || c == '\u{3000}'
}

/// `s` without its leading white space.
pub open spec fn trim_start_seq(s: Seq<char>) -> Seq<char>
    decreases s.len(),
{
    if s.len() > 0 && is_white_space(s[0]) {
        trim_start_seq(s.drop_first())
    } else {
        s
    }
}

/// `s` without its trailing white space.
pub open spec fn trim_end_seq(s: Seq<char>) -> Seq<char>
    decreases s.len(),
{
    if s.len() > 0 && is_white_space(s.last()) {
        trim_end_seq(s.drop_last())
    } else {
        s
    }
}

/// `s` without its leading and trailing white space.
pub open spec fn trim_seq(s: Seq<char>) -> Seq<char> {
    trim_end_seq(trim_start_seq(s))
}

/// `k` is the first position at which `sep` occurs in `s`.
pub open spec fn is_first_index(s: Seq<char>, sep: char, k: int) -> bool {
    &&& 0 <= k < s.len()
    &&& s[k] == sep
    &&& forall|m: int| 0 <= m < k ==> s[m] != sep
}

/// The first position at which `sep` occurs in `s`, if it occurs.
pub open spec fn first_index(s: Seq<char>, sep: char) -> Option<int> {
    if exists|k: int| is_first_index(s, sep, k) {
        Some(choose|k: int| is_first_index(s, sep, k))
    } else {
        None
    }
}

/// `s` cut at the first occurrence of `sep`, which belongs to neither part.
pub open spec fn split_once_seq(s: Seq<char>, sep: char) -> Option<(Seq<char>, Seq<char>)> {
    match first_index(s, sep) {
        Some(k) => Some((s.take(k), s.skip(k + 1))),
        None => None,
    }
}

/// The pieces of `s` between the occurrences of `sep`: one more piece than
/// there are separators.
pub open spec fn split_seq(s: Seq<char>, sep: char) -> Seq<Seq<char>>
    decreases s.len(),
{
    match first_index(s, sep) {
        Some(k) => if 0 <= k < s.len() {
            seq![s.take(k)] + split_seq(s.skip(k + 1), sep)
        } else {
            seq![s]
        },
        None => seq![s],
    }
}

/// The pieces of `s` between the occurrences of `sep`, without the last one
/// when it is empty.
pub open spec fn split_terminator_seq(s: Seq<char>, sep: char) -> Seq<Seq<char>> {
    let pieces = split_seq(s, sep);
    if pieces.last().len() == 0 {
        pieces.drop_last()
    } else {
        pieces
    }
}

/// The length of the run of non-white-space characters that `s` starts with.
pub open spec fn word_len(s: Seq<char>) -> nat
    decreases s.len(),
{
    if s.len() > 0 && !is_white_space(s[0]) {
        1 + word_len(s.drop_first())
    } else {
        0
    }
}

/// The maximal runs of non-white-space characters of `s`, in order.
pub open spec fn words_seq(s: Seq<char>) -> Seq<Seq<char>>
    decreases s.len(),
{
    if s.len() == 0 {
        seq![]
    } else if is_white_space(s[0]) {
        words_seq(s.drop_first())
    } else {
        let k = word_len(s);
        if 1 <= k <= s.len() {
            seq![s.take(k as int)] + words_seq(s.skip(k as int))
        } else {
            seq![s]
        }
    }
}

/// The views of a vector of strings.
pub open spec fn views_of(v: Seq<String>) -> Seq<Seq<char>> {
    v.map_values(|w: String| w@)
}

proof fn lemma_word_len_bounds(s: Seq<char>)
    ensures
        word_len(s) <= s.len(),
        s.len() > 0 && !is_white_space(s[0]) ==> word_len(s) >= 1,
    decreases s.len(),
{
    if s.len() > 0 && !is_white_space(s[0]) {
        lemma_word_len_bounds(s.drop_first());
    }
}

/// The characters of a string slice, in order.
pub fn chars_of(s: &str) -> (r: Vec<char>)
    ensures
        r@ == s@,
{
    let mut r: Vec<char> = Vec::new();
    for c in it: s.chars()
        invariant
            r@ == it.seq().take(it.index()),
            it.seq() == s@,
    {
        r.push(c);
    }
    r
}

/// An owned copy of the characters `from..to` of `s`.
pub fn substring(s: &str, from: usize, to: usize) -> (r: String)
    requires
        from <= to <= s@.len(),
    ensures
        r@ == s@.subrange(from as int, to as int),
{
    let sub = s.substring_char(from, to);
    sub.to_owned()
}

/// The positions `from..to` that `s` keeps once its leading and trailing
/// white space is removed.
fn trim_bounds(s: &Vec<char>) -> (r: (usize, usize))
    ensures
        r.0 <= r.1 <= s@.len(),
        trim_seq(s@) == s@.subrange(r.0 as int, r.1 as int),
{
    let n = s.len();
    let mut i: usize = 0;
    assert(s@.skip(0) =~= s@);
    while i < n && is_whitespace(s[i])
        invariant
            i <= n == s@.len(),
            trim_start_seq(s@) == trim_start_seq(s@.skip(i as int)),
        decreases n - i,
    {
        assert(s@.skip(i as int).drop_first() =~= s@.skip(i + 1));
        i = i + 1;
    }
    assert(trim_start_seq(s@.skip(i as int)) == s@.skip(i as int));
    assert(s@.skip(i as int) =~= s@.subrange(i as int, n as int));
    let mut j: usize = n;
    while j > i && is_whitespace(s[j - 1])
        invariant
            i <= j <= n == s@.len(),
            trim_seq(s@) == trim_end_seq(s@.subrange(i as int, j as int)),
        decreases j,
    {
        assert(s@.subrange(i as int, j as int).drop_last() =~= s@.subrange(i as int, j - 1));
        j = j - 1;
    }
    (i, j)
}

/// `s` without its leading and trailing white space, as `str::trim` gives it.
pub fn trim(s: &str) -> (r: String)
    ensures
        r@ == trim_seq(s@),
{
    let cs = chars_of(s);
    let (a, b) = trim_bounds(&cs);
    substring(s, a, b)
}

/// The first position at or after `from` at which `sep` occurs in `s`.
fn find_from(s: &Vec<char>, sep: char, from: usize) -> (r: Option<usize>)
    requires
        from <= s@.len(),
    ensures
        match r {
            Some(k) => from <= k < s@.len() && is_first_index(s@.skip(from as int), sep, k - from),
            None => forall|m: int| from <= m < s@.len() ==> s@[m] != sep,
        },
{
    let mut k = from;
    while k < s.len()
        invariant
            from <= k <= s@.len(),
            forall|m: int| from <= m < k ==> s@[m] != sep,
        decreases s@.len() - k,
    {
        if s[k] == sep {
            return Some(k);
        }
        k = k + 1;
    }
    None
}

proof fn lemma_first_index_some(s: Seq<char>, sep: char, k: int)
    requires
        is_first_index(s, sep, k),
    ensures
        first_index(s, sep) == Some(k),
{
    let c = choose|j: int| is_first_index(s, sep, j);
    assert(is_first_index(s, sep, c));
    if c < k {
        assert(s[c] != sep);
    }
    if k < c {
        assert(s[k] != sep);
    }
}

proof fn lemma_first_index_none(s: Seq<char>, sep: char)
    requires
        forall|m: int| 0 <= m < s.len() ==> s[m] != sep,
    ensures
        first_index(s, sep) is None,
{
}

/// `s` cut at the first occurrence of `sep`, as `str::split_once` gives it.
pub fn split_once(s: &str, sep: char) -> (r: Option<(String, String)>)
    ensures
        match r {
            Some((a, b)) => split_once_seq(s@, sep) == Some((a@, b@)),
            None => split_once_seq(s@, sep) is None,
        },
{
    let cs = chars_of(s);
    let n = cs.len();
    match find_from(&cs, sep, 0) {
        Some(k) => {
            proof {
                assert(cs@.skip(0) =~= cs@);
                lemma_first_index_some(s@, sep, k as int);
            }
            let a = substring(s, 0, k);
            let b = substring(s, k + 1, n);
            assert(a@ =~= s@.take(k as int));
            assert(b@ =~= s@.skip(k + 1));
            Some((a, b))
        },
        None => {
            proof {
                lemma_first_index_none(s@, sep);
            }
            None
        },
    }
}

/// The pieces of `s` between the occurrences of `sep`, as `str::split` gives
/// them.
pub fn split(s: &str, sep: char) -> (r: Vec<String>)
    ensures
        views_of(r@) == split_seq(s@, sep),
{
    let cs = chars_of(s);
    let n = cs.len();
    let mut r: Vec<String> = Vec::new();
    let mut i: usize = 0;
    assert(s@.skip(0) =~= s@);
    assert(views_of(r@) =~= Seq::<Seq<char>>::empty());
    loop
        invariant
            i <= n == cs@.len(),
            cs@ == s@,
            split_seq(s@, sep) == views_of(r@) + split_seq(s@.skip(i as int), sep),
        decreases n - i,
    {
        let found = find_from(&cs, sep, i);
        match found {
            Some(k) => {
                let piece = substring(s, i, k);
                proof {
                    let t = s@.skip(i as int);
                    lemma_first_index_some(t, sep, k - i);
                    assert(piece@ =~= t.take(k - i));
                    assert(t.skip(k - i + 1) =~= s@.skip(k + 1));
                    assert(split_seq(t, sep) == seq![t.take(k - i)] + split_seq(
                        t.skip(k - i + 1),
                        sep,
                    ));
                }
                let ghost before = r@;
                r.push(piece);
                proof {
                    assert(views_of(r@) =~= views_of(before) + seq![piece@]);
                    assert(views_of(before) + seq![piece@] + split_seq(s@.skip(k + 1), sep)
                        =~= views_of(before) + (seq![piece@] + split_seq(s@.skip(k + 1), sep)));
                }
                i = k + 1;
            },
            None => {
                let piece = substring(s, i, n);
                proof {
                    let t = s@.skip(i as int);
                    lemma_first_index_none(t, sep);
                    assert(piece@ =~= t);
                }
                let ghost before = r@;
                r.push(piece);
                assert(views_of(r@) =~= views_of(before) + seq![piece@]);
                return r;
            },
        }
    }
}

/// The pieces of `s` between the occurrences of `sep`, without the last one
/// when it is empty, as `str::split_terminator` gives them.
pub fn split_terminator(s: &str, sep: char) -> (r: Vec<String>)
    ensures
        views_of(r@) == split_terminator_seq(s@, sep),
{
    let mut pieces = split(s, sep);
    assert(split_seq(s@, sep).len() >= 1);
    let last = pieces.len() - 1;
    if pieces[last].as_str().is_empty() {
        let ghost before = pieces@;
        pieces.pop();
        assert(views_of(pieces@) =~= views_of(before).drop_last());
    }
    pieces
}

/// The maximal runs of non-white-space characters of `s`, as
/// `str::split_whitespace` gives them.
pub fn split_whitespace(s: &str) -> (r: Vec<String>)
    ensures
        views_of(r@) == words_seq(s@),
{
    let cs = chars_of(s);
    let n = cs.len();
    let mut r: Vec<String> = Vec::new();
    let mut i: usize = 0;
    assert(s@.skip(0) =~= s@);
    assert(views_of(r@) =~= Seq::<Seq<char>>::empty());
    loop
        invariant
            i <= n == cs@.len(),
            cs@ == s@,
            words_seq(s@) == views_of(r@) + words_seq(s@.skip(i as int)),
        decreases n - i,
    {
        let ghost start = i;
        while i < n && is_whitespace(cs[i])
            invariant
                start <= i <= n == cs@.len(),
                cs@ == s@,
                words_seq(s@) == views_of(r@) + words_seq(s@.skip(i as int)),
            decreases n - i,
        {
            assert(s@.skip(i as int).drop_first() =~= s@.skip(i + 1));
            i = i + 1;
        }
        if i == n {
            assert(s@.skip(i as int) =~= Seq::<char>::empty());
            assert(views_of(r@) + words_seq(s@.skip(i as int)) =~= views_of(r@));
            return r;
        }
        let mut j: usize = i;
        while j < n && !is_whitespace(cs[j])
            invariant
                start <= i <= j <= n == cs@.len(),
                i < n,
                !is_white_space(cs@[i as int]),
                cs@ == s@,
                word_len(s@.skip(i as int)) == (j - i) + word_len(s@.skip(j as int)),
            decreases n - j,
        {
            assert(s@.skip(j as int).drop_first() =~= s@.skip(j + 1));
            j = j + 1;
        }
        proof {
            let t = s@.skip(i as int);
            assert(word_len(s@.skip(j as int)) == 0);
            assert(t.take((j - i) as int) =~= s@.subrange(i as int, j as int));
            assert(t.skip((j - i) as int) =~= s@.skip(j as int));
        }
        let word = substring(s, i, j);
        let ghost before = r@;
        r.push(word);
        proof {
            assert(views_of(r@) =~= views_of(before) + seq![word@]);
            assert(views_of(before) + seq![word@] + words_seq(s@.skip(j as int)) =~= views_of(
                before,
            ) + (seq![word@] + words_seq(s@.skip(j as int))));
        }
        i = j;
    }
}

/// Whether two string slices hold the same characters.
pub fn str_eq(a: &str, b: &str) -> (r: bool)
    ensures
        r == (a@ == b@),
{
    let x = chars_of(a);
    let y = chars_of(b);
    if x.len() != y.len() {
        return false;
    }
    let mut i: usize = 0;
    while i < x.len()
        invariant
            i <= x@.len() == y@.len(),
            x@ == a@,
            y@ == b@,
            forall|m: int| 0 <= m < i ==> x@[m] == y@[m],
        decreases x@.len() - i,
    {
        if x[i] != y[i] {
            return false;
        }
        i = i + 1;
    }
    assert(x@ =~= y@);
    true
}

/// Appends one character to a string.
#[verifier::external_body]
fn push_char(s: &mut String, c: char)
    ensures
        final(s)@ == old(s)@.push(c),
{
    s.push(c)
}

/// `s` with every character `c` removed.
pub open spec fn without_char(s: Seq<char>, c: char) -> Seq<char>
    decreases s.len(),
{
    if s.len() == 0 {
        s
    } else if s.last() == c {
        without_char(s.drop_last(), c)
    } else {
        without_char(s.drop_last(), c).push(s.last())
    }
}

/// `s` with every occurrence of the character `c` removed, as
/// `str::replace` with an empty replacement gives it.
pub fn remove_char(s: &str, c: char) -> (r: String)
    ensures
        r@ == without_char(s@, c),
{
    let cs = chars_of(s);
    let mut r = String::new();
    let mut i: usize = 0;
    while i < cs.len()
        invariant
            i <= cs@.len(),
            cs@ == s@,
            r@ == without_char(cs@.take(i as int), c),
        decreases cs@.len() - i,
    {
        proof {
            assert(cs@.take(i + 1).drop_last() =~= cs@.take(i as int));
        }
        if cs[i] != c {
            push_char(&mut r, cs[i]);
        }
        i = i + 1;
    }
    assert(cs@.take(cs@.len() as int) =~= cs@);
    r
}

/// `a` followed by `b`.
pub fn str_concat(a: &str, b: &str) -> (r: String)
    ensures
        r@ == a@ + b@,
{
    let mut r = a.to_owned();
    r.append(b);
    r
}

} // verus!
