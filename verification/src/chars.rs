//! Character classification and verified string/character-vector utilities
//! shared by the tokenizer, the URL splitter and the response parser.

use vstd::prelude::*;
use vstd::string::StrSliceExecFns;

verus! {

/// One ASCII uppercase letter.
pub open spec fn is_upper(c: char) -> bool {
    'A' <= c && c <= 'Z'
}

/// One ASCII letter, of either case.
pub open spec fn is_alpha(c: char) -> bool {
    ('a' <= c && c <= 'z') || ('A' <= c && c <= 'Z')
}

/// The lowercase form of an ASCII uppercase letter; any other character is
/// left as it is.
pub open spec fn lower_char(c: char) -> char {
    if is_upper(c) {
        (c as int + 32) as char
    } else {
        c
    }
}

/// No character of `s` is an ASCII uppercase letter.
pub open spec fn no_upper(s: Seq<char>) -> bool {
    forall|i: int| 0 <= i < s.len() ==> !is_upper(#[trigger] s[i])
}

pub fn is_ascii_alphabetic_c(c: char) -> (r: bool)
    ensures
        r == is_alpha(c),
{
    ('a' <= c && c <= 'z') || ('A' <= c && c <= 'Z')
}

pub fn is_ascii_uppercase_c(c: char) -> (r: bool)
    ensures
        r == is_upper(c),
{
    'A' <= c && c <= 'Z'
}

pub fn to_ascii_lowercase_c(c: char) -> (r: char)
    ensures
        r == lower_char(c),
{
    if 'A' <= c && c <= 'Z' {
        ((c as u8) + 32) as char
    } else {
        c
    }
}

/// Relies on `String::push`: appends exactly the one character at the end.
#[verifier::external_body]
pub fn push_char(s: &mut String, c: char)
    ensures
        final(s)@ == old(s)@.push(c),
{
    s.push(c);
}

/// The characters of `s`, in order, as a vector.
pub fn str_to_chars(s: &str) -> (v: Vec<char>)
    ensures
        v@ == s@,
{
    let n = s.unicode_len();
    let mut v: Vec<char> = Vec::new();
    let mut i: usize = 0;
    while i < n
        invariant
            i <= n,
            n == s@.len(),
            v@ == s@.take(i as int),
        decreases n - i,
    {
        v.push(s.get_char(i));
        proof {
            assert(s@.take(i as int).push(s@[i as int]) =~= s@.take(i + 1));
        }
        i = i + 1;
    }
    proof {
        assert(s@.take(n as int) =~= s@);
    }
    v
}

/// The string holding exactly the characters of `v`, in order.
pub fn chars_to_string(v: &Vec<char>) -> (s: String)
    ensures
        s@ == v@,
{
    let mut s = String::new();
    let mut i: usize = 0;
    while i < v.len()
        invariant
            i <= v.len(),
            s@ == v@.take(i as int),
        decreases v.len() - i,
    {
        push_char(&mut s, v[i]);
        proof {
            assert(v@.take(i as int).push(v@[i as int]) =~= v@.take(i + 1));
        }
        i = i + 1;
    }
    proof {
        assert(v@.take(v@.len() as int) =~= v@);
    }
    s
}

/// A copy of `v[from..to]`.
pub fn sub_vec(v: &Vec<char>, from: usize, to: usize) -> (r: Vec<char>)
    requires
        from <= to <= v.len(),
    ensures
        r@ == v@.subrange(from as int, to as int),
{
    let mut r: Vec<char> = Vec::new();
    let mut i: usize = from;
    while i < to
        invariant
            from <= i <= to <= v.len(),
            r@ == v@.subrange(from as int, i as int),
        decreases to - i,
    {
        r.push(v[i]);
        proof {
            assert(v@.subrange(from as int, i as int).push(v@[i as int]) =~= v@.subrange(
                from as int,
                i + 1,
            ));
        }
        i = i + 1;
    }
    r
}

/// Index of the first occurrence of `c` in `s`, if any.
pub open spec fn find_char(s: Seq<char>, c: char) -> Option<int>
    decreases s.len(),
{
    if s.len() == 0 {
        None
    } else if s[0] == c {
        Some(0int)
    } else {
        match find_char(s.drop_first(), c) {
            Some(i) => Some(i + 1),
            None => None,
        }
    }
}

/// `find_char` returns the first index holding `c`, or reports that none does.
pub proof fn lemma_find_char(s: Seq<char>, c: char)
    ensures
        match find_char(s, c) {
            Some(i) => 0 <= i < s.len() && s[i] == c && (forall|j: int| 0 <= j < i ==> s[j] != c),
            None => forall|j: int| 0 <= j < s.len() ==> s[j] != c,
        },
    decreases s.len(),
{
    if s.len() > 0 && s[0] != c {
        let d = s.drop_first();
        lemma_find_char(d, c);
        match find_char(d, c) {
            Some(i) => {
                assert(s[i + 1] == d[i]);
                assert forall|j: int| 0 <= j < i + 1 implies s[j] != c by {
                    if j > 0 {
                        assert(s[j] == d[j - 1]);
                    }
                }
            },
            None => {
                assert forall|j: int| 0 <= j < s.len() implies s[j] != c by {
                    if j > 0 {
                        assert(s[j] == d[j - 1]);
                    }
                }
            },
        }
    }
}

/// First occurrence of `c` in `v` at or after `start`, as an index into `v`.
pub fn find_char_vec(v: &Vec<char>, c: char, start: usize) -> (r: Option<usize>)
    requires
        start <= v.len(),
    ensures
        match r {
            Some(i) => start <= i < v.len() && find_char(v@.skip(start as int), c) == Some(
                i - start,
            ),
            None => find_char(v@.skip(start as int), c) is None,
        },
{
    let ghost s = v@.skip(start as int);
    let mut i: usize = start;
    while i < v.len()
        invariant
            start <= i <= v.len(),
            s == v@.skip(start as int),
            forall|j: int| start <= j < i ==> v@[j] != c,
        decreases v.len() - i,
    {
        if v[i] == c {
            proof {
                lemma_find_char(s, c);
                assert(s[i - start] == c);
                assert(forall|j: int| 0 <= j < i - start ==> s[j] == v@[j + start] && s[j] != c);
                assert(find_char(s, c) == Some(i - start as int));
            }
            return Some(i);
        }
        i = i + 1;
    }
    proof {
        lemma_find_char(s, c);
        assert(forall|j: int| 0 <= j < s.len() ==> s[j] == v@[j + start] && s[j] != c);
    }
    None
}

/// The pieces of `s` between occurrences of the separator `c`: one piece
/// more than there are separators, in order, each possibly empty.
pub open spec fn split_char(s: Seq<char>, c: char) -> Seq<Seq<char>>
    decreases s.len(),
{
    if s.len() == 0 {
        seq![s]
    } else if s[0] == c {
        seq![Seq::<char>::empty()] + split_char(s.drop_first(), c)
    } else {
        let r = split_char(s.drop_first(), c);
        seq![seq![s[0]] + r[0]] + r.drop_first()
    }
}

/// `split_char` yields at least one piece.
pub proof fn lemma_split_char_len(s: Seq<char>, c: char)
    ensures
        split_char(s, c).len() >= 1,
    decreases s.len(),
{
    if s.len() > 0 {
        lemma_split_char_len(s.drop_first(), c);
    }
}

/// Unrolls `split_char` at the first occurrence of the separator.
pub proof fn lemma_split_char_first(s: Seq<char>, c: char)
    ensures
        match find_char(s, c) {
            None => split_char(s, c) == seq![s],
            Some(i) => split_char(s, c) == seq![s.take(i)] + split_char(s.skip(i + 1), c),
        },
    decreases s.len(),
{
    lemma_find_char(s, c);
    if s.len() == 0 {
        assert(s =~= Seq::<char>::empty());
    } else if s[0] == c {
        assert(s.take(0) =~= Seq::<char>::empty());
        assert(s.skip(1) =~= s.drop_first());
        assert(split_char(s, c) == seq![s.take(0)] + split_char(s.skip(1), c));
    } else {
        let d = s.drop_first();
        lemma_split_char_first(d, c);
        lemma_split_char_len(d, c);
        let r = split_char(d, c);
        match find_char(d, c) {
            None => {
                assert(find_char(s, c) is None);
                assert(r == seq![d]);
                assert(seq![s[0]] + r[0] =~= s);
                assert(r.drop_first() =~= Seq::<Seq<char>>::empty());
                assert(split_char(s, c) =~= seq![s]);
            },
            Some(i) => {
                assert(find_char(s, c) == Some(i + 1));
                assert(r == seq![d.take(i)] + split_char(d.skip(i + 1), c));
                assert(r[0] == d.take(i));
                assert(seq![s[0]] + d.take(i) =~= s.take(i + 1));
                assert(r.drop_first() =~= split_char(d.skip(i + 1), c));
                assert(d.skip(i + 1) =~= s.skip(i + 2));
                assert(split_char(s, c) =~= seq![s.take(i + 1)] + split_char(s.skip(i + 2), c));
            },
        }
    }
}

/// Splits `v` at every occurrence of `c`, as `split_char` describes.
pub fn split_char_vec(v: &Vec<char>, c: char) -> (r: Vec<Vec<char>>)
    ensures
        r.deep_view() == split_char(v@, c),
{
    let mut parts: Vec<Vec<char>> = Vec::new();
    let mut start: usize = 0;
    proof {
        assert(parts.deep_view() =~= Seq::<Seq<char>>::empty());
        assert(v@.skip(0) =~= v@);
        assert(Seq::<Seq<char>>::empty() + split_char(v@, c) =~= split_char(v@, c));
    }
    loop
        invariant
            start <= v.len(),
            split_char(v@, c) == parts.deep_view() + split_char(v@.skip(start as int), c),
        decreases v.len() - start,
    {
        let ghost rest = v@.skip(start as int);
        let ghost parts_pre = parts.deep_view();
        match find_char_vec(v, c, start) {
            Some(j) => {
                let piece = sub_vec(v, start, j);
                parts.push(piece);
                proof {
                    lemma_split_char_first(rest, c);
                    assert(rest.take(j - start) =~= v@.subrange(start as int, j as int));
                    assert(rest.skip(j - start + 1) =~= v@.skip(j + 1));
                    assert(parts.deep_view() =~~= parts_pre + seq![piece@]);
                    assert(parts_pre + seq![piece@] + split_char(v@.skip(j + 1), c) =~= parts_pre
                        + (seq![piece@] + split_char(v@.skip(j + 1), c)));
                }
                start = j + 1;
            },
            None => {
                let piece = sub_vec(v, start, v.len());
                parts.push(piece);
                proof {
                    lemma_split_char_first(rest, c);
                    assert(rest =~= v@.subrange(start as int, v@.len() as int));
                    assert(parts.deep_view() =~~= parts_pre + seq![piece@]);
                }
                return parts;
            },
        }
    }
}

} // verus!
