//! Character-level text utilities shared by the path, extractor and codec
//! modules. Everything here is specified over `Seq<char>` views.

use vstd::prelude::*;

verus! {

/// Relies on std's `String::push`: appends one character at the end.
#[verifier::external_body]
pub fn push_char(s: &mut String, c: char)
    ensures
        final(s)@ == old(s)@.push(c),
{
    s.push(c);
}

/// Collect the characters of a string slice into a vector.
pub fn chars_of(s: &str) -> (v: Vec<char>)
    ensures
        v@ == s@,
{
    let n = s.unicode_len();
    let mut v: Vec<char> = Vec::new();
    let mut i: usize = 0;
    while i < n
        invariant
            n == s@.len(),
            i <= n,
            v@ == s@.subrange(0, i as int),
        decreases n - i,
    {
        v.push(s.get_char(i));
        i = i + 1;
        proof {
            assert(v@ =~= s@.subrange(0, i as int));
        }
    }
    proof {
        assert(v@ =~= s@);
    }
    v
}

/// Build a string out of a character slice.
pub fn string_of(v: &[char]) -> (s: String)
    ensures
        s@ == v@,
{
    let mut s = String::new();
    let mut i: usize = 0;
    while i < v.len()
        invariant
            i <= v@.len(),
            s@ == v@.subrange(0, i as int),
        decreases v@.len() - i,
    {
        push_char(&mut s, v[i]);
        i = i + 1;
        proof {
            assert(s@ =~= v@.subrange(0, i as int));
        }
    }
    proof {
        assert(s@ =~= v@);
    }
    s
}

/// `needle` occurs in `hay` starting at position `i`.
pub open spec fn occurs_at(hay: Seq<char>, needle: Seq<char>, i: int) -> bool {
    0 <= i && i + needle.len() <= hay.len() && hay.subrange(i, i + needle.len()) == needle
}

pub open spec fn contains_seq(hay: Seq<char>, needle: Seq<char>) -> bool {
    exists|i: int| occurs_at(hay, needle, i)
}

pub open spec fn is_prefix(p: Seq<char>, s: Seq<char>) -> bool {
    p.len() <= s.len() && s.subrange(0, p.len() as int) == p
}

pub open spec fn is_suffix(p: Seq<char>, s: Seq<char>) -> bool {
    p.len() <= s.len() && s.subrange(s.len() - p.len(), s.len() as int) == p
}

/// Copy `v[a..b]` into a fresh vector.
pub fn slice_range(v: &[char], a: usize, b: usize) -> (out: Vec<char>)
    requires
        a <= b <= v@.len(),
    ensures
        out@ == v@.subrange(a as int, b as int),
{
    let mut out: Vec<char> = Vec::new();
    let mut i: usize = a;
    while i < b
        invariant
            a <= i <= b <= v@.len(),
            out@ == v@.subrange(a as int, i as int),
        decreases b - i,
    {
        out.push(v[i]);
        i = i + 1;
        proof {
            assert(out@ =~= v@.subrange(a as int, i as int));
        }
    }
    out
}

/// Whether `needle` occurs at position `at` of `hay`.
pub fn occurs_here(hay: &[char], needle: &[char], at: usize) -> (r: bool)
    requires
        at <= hay@.len(),
    ensures
        r == occurs_at(hay@, needle@, at as int),
{
    let hlen = hay.len();
    if hlen - at < needle.len() {
        proof {
            assert(!occurs_at(hay@, needle@, at as int));
        }
        return false;
    }
    let mut i: usize = 0;
    while i < needle.len()
        invariant
            hlen == hay@.len(),
            at + needle@.len() <= hay@.len(),
            i <= needle@.len(),
            forall|j: int| 0 <= j < i ==> hay@[at + j] == needle@[j],
        decreases needle@.len() - i,
    {
        if hay[at + i] != needle[i] {
            proof {
                assert(hay@.subrange(
                    at as int,
                    at + needle@.len(),
                )[i as int] != needle@[i as int]);
            }
            return false;
        }
        i = i + 1;
    }
    proof {
        assert(hay@.subrange(at as int, at + needle@.len()) =~= needle@);
    }
    true
}

/// First position of `needle` in `hay` at or after `from`, if any.
pub fn find_sub_from(hay: &[char], needle: &[char], from: usize) -> (r: Option<usize>)
    requires
        from <= hay@.len(),
    ensures
        match r {
            Some(i) => from <= i && occurs_at(hay@, needle@, i as int) && forall|j: int|
                from <= j < i ==> !occurs_at(hay@, needle@, j),
            None => forall|j: int| from <= j ==> !occurs_at(hay@, needle@, j),
        },
{
    if needle.len() == 0 {
        proof {
            assert(hay@.subrange(from as int, from as int) =~= needle@);
        }
        return Some(from);
    }
    let n = hay.len();
    let mut i: usize = from;
    while i < n
        invariant
            n == hay@.len(),
            from <= i,
            i <= n || from == i,
            forall|j: int| from <= j < i ==> !occurs_at(hay@, needle@, j),
        decreases n - i,
    {
        if occurs_here(hay, needle, i) {
            return Some(i);
        }
        i = i + 1;
    }
    proof {
        assert(forall|j: int| from <= j ==> !occurs_at(hay@, needle@, j)) by {
            assert(forall|j: int|
                occurs_at(hay@, needle@, j) && needle@.len() > 0 ==> j < hay@.len());
        }
    }
    None
}

pub fn find_sub(hay: &[char], needle: &[char]) -> (r: Option<usize>)
    ensures
        match r {
            Some(i) => occurs_at(hay@, needle@, i as int) && forall|j: int|
                0 <= j < i ==> !occurs_at(hay@, needle@, j),
            None => !contains_seq(hay@, needle@),
        },
{
    find_sub_from(hay, needle, 0)
}

pub fn contains_sub(hay: &[char], needle: &[char]) -> (r: bool)
    ensures
        r == contains_seq(hay@, needle@),
{
    match find_sub(hay, needle) {
        Some(_) => true,
        None => false,
    }
}

pub fn starts_with(s: &[char], p: &[char]) -> (r: bool)
    ensures
        r == is_prefix(p@, s@),
{
    if p.len() > s.len() {
        return false;
    }
    occurs_here(s, p, 0)
}

pub fn ends_with(s: &[char], p: &[char]) -> (r: bool)
    ensures
        r == is_suffix(p@, s@),
{
    if p.len() > s.len() {
        return false;
    }
    occurs_here(s, p, s.len() - p.len())
}

/// Character-for-character equality of two slices.
pub fn chars_eq(a: &[char], b: &[char]) -> (r: bool)
    ensures
        r == (a@ == b@),
{
    if a.len() != b.len() {
        return false;
    }
    let r = occurs_here(a, b, 0);
    proof {
        assert(a@.subrange(0, a@.len() as int) =~= a@);
    }
    r
}

} // verus!

verus! {

/// The Unicode `White_Space` characters, the set that `char::is_whitespace`
/// recognizes.
pub open spec fn is_space_char(c: char) -> bool {
    c == ' ' || c == '\t' || c == '\n' || c == '\u{000B}' || c == '\u{000C}' || c == '\r'
        || c == '\u{0085}' || c == '\u{00A0}' || c == '\u{1680}' || ('\u{2000}' <= c && c
        <= '\u{200A}') || c == '\u{2028}' || c == '\u{2029}' || c == '\u{202F}' || c == '\u{205F}'
        || c == '\u{3000}'
}

pub fn is_space(c: char) -> (r: bool)
    ensures
        r == is_space_char(c),
{
    c == ' ' || c == '\t' || c == '\n' || c == '\u{000B}' || c == '\u{000C}' || c == '\r'
        || c == '\u{0085}' || c == '\u{00A0}' || c == '\u{1680}' || ('\u{2000}' <= c && c
        <= '\u{200A}') || c == '\u{2028}' || c == '\u{2029}' || c == '\u{202F}' || c == '\u{205F}'
        || c == '\u{3000}'
}

pub open spec fn trim_start_rec(s: Seq<char>) -> Seq<char>
    decreases s.len(),
{
    if s.len() > 0 && is_space_char(s[0]) {
        trim_start_rec(s.drop_first())
    } else {
        s
    }
}

pub open spec fn trim_end_rec(s: Seq<char>) -> Seq<char>
    decreases s.len(),
{
    if s.len() > 0 && is_space_char(s.last()) {
        trim_end_rec(s.drop_last())
    } else {
        s
    }
}

/// What `str::trim` leaves: the text with leading and trailing whitespace
/// removed.
pub open spec fn trim_spec(s: Seq<char>) -> Seq<char> {
    trim_end_rec(trim_start_rec(s))
}

proof fn lemma_trim_start(s: Seq<char>, k: int)
    requires
        0 <= k <= s.len(),
        forall|m: int| 0 <= m < k ==> is_space_char(s[m]),
        k < s.len() ==> !is_space_char(s[k]),
    ensures
        trim_start_rec(s) == s.subrange(k, s.len() as int),
    decreases k,
{
    if k == 0 {
        assert(s.subrange(0, s.len() as int) =~= s);
    } else {
        lemma_trim_start(s.drop_first(), k - 1);
        assert(s.drop_first().subrange(k - 1, s.drop_first().len() as int) =~= s.subrange(
            k,
            s.len() as int,
        ));
    }
}

proof fn lemma_trim_end(s: Seq<char>, k: int)
    requires
        0 <= k <= s.len(),
        forall|m: int| k <= m < s.len() ==> is_space_char(s[m]),
        k > 0 ==> !is_space_char(s[k - 1]),
    ensures
        trim_end_rec(s) == s.subrange(0, k),
    decreases s.len() - k,
{
    if k == s.len() {
        assert(s.subrange(0, s.len() as int) =~= s);
    } else {
        lemma_trim_end(s.drop_last(), k);
        assert(s.drop_last().subrange(0, k) =~= s.subrange(0, k));
    }
}

/// Remove leading and trailing whitespace.
pub fn trim(v: &[char]) -> (out: Vec<char>)
    ensures
        out@ == trim_spec(v@),
{
    let n = v.len();
    let mut a: usize = 0;
    while a < n && is_space(v[a])
        invariant
            n == v@.len(),
            a <= n,
            forall|m: int| 0 <= m < a ==> is_space_char(v@[m]),
        decreases n - a,
    {
        a = a + 1;
    }
    proof {
        lemma_trim_start(v@, a as int);
    }
    let mut b: usize = n;
    while b > a && is_space(v[b - 1])
        invariant
            n == v@.len(),
            a <= b <= n,
            forall|m: int| b <= m < n ==> is_space_char(v@[m]),
        decreases b,
    {
        b = b - 1;
    }
    let ghost t = v@.subrange(a as int, n as int);
    proof {
        assert(forall|m: int| b - a <= m < t.len() ==> is_space_char(t[m]));
        lemma_trim_end(t, b - a);
        assert(t.subrange(0, b - a) =~= v@.subrange(a as int, b as int));
    }
    slice_range(v, a, b)
}

/// Strict lexicographic order on character sequences, by code point.
pub open spec fn lex_lt(a: Seq<char>, b: Seq<char>) -> bool
    decreases a.len(),
{
    if b.len() == 0 {
        false
    } else if a.len() == 0 {
        true
    } else if (a[0] as int) < (b[0] as int) {
        true
    } else if a[0] == b[0] {
        lex_lt(a.drop_first(), b.drop_first())
    } else {
        false
    }
}

pub open spec fn lex_le(a: Seq<char>, b: Seq<char>) -> bool {
    lex_lt(a, b) || a == b
}

proof fn lemma_lex_skip(a: Seq<char>, b: Seq<char>, i: int)
    requires
        0 <= i <= a.len(),
        i <= b.len(),
        a.subrange(0, i) == b.subrange(0, i),
    ensures
        lex_lt(a, b) == lex_lt(a.skip(i), b.skip(i)),
    decreases i,
{
    if i == 0 {
        assert(a.skip(0) =~= a);
        assert(b.skip(0) =~= b);
    } else {
        assert(a.subrange(0, i)[0] == a[0]);
        assert(b.subrange(0, i)[0] == b[0]);
        assert(a.len() > 0 && b.len() > 0 && a[0] == b[0]);
        assert(a.drop_first().subrange(0, i - 1) =~= a.subrange(0, i).drop_first());
        assert(b.drop_first().subrange(0, i - 1) =~= b.subrange(0, i).drop_first());
        lemma_lex_skip(a.drop_first(), b.drop_first(), i - 1);
        assert(a.drop_first().skip(i - 1) =~= a.skip(i));
        assert(b.drop_first().skip(i - 1) =~= b.skip(i));
    }
}

/// Compare two character slices in lexicographic (code point) order.
pub fn chars_le(a: &[char], b: &[char]) -> (r: bool)
    ensures
        r == lex_le(a@, b@),
{
    let alen = a.len();
    let blen = b.len();
    let m = if alen < blen {
        alen
    } else {
        blen
    };
    let mut i: usize = 0;
    while i < m
        invariant
            alen == a@.len(),
            blen == b@.len(),
            m <= alen && m <= blen,
            i <= m,
            forall|k: int| 0 <= k < i ==> a@[k] == b@[k],
        decreases m - i,
    {
        let ca = a[i];
        let cb = b[i];
        if ca != cb {
            proof {
                assert(a@.subrange(0, i as int) =~= b@.subrange(0, i as int));
                lemma_lex_skip(a@, b@, i as int);
                assert(a@.skip(i as int)[0] == ca);
                assert(b@.skip(i as int)[0] == cb);
                if (ca as int) >= (cb as int) {
                    assert(!lex_lt(a@.skip(i as int), b@.skip(i as int)));
                    assert(a@[i as int] != b@[i as int]);
                    assert(a@ != b@);
                }
            }
            return ca < cb;
        }
        i = i + 1;
    }
    proof {
        assert(a@.subrange(0, m as int) =~= b@.subrange(0, m as int));
        lemma_lex_skip(a@, b@, m as int);
        if alen < blen {
            assert(a@.skip(m as int).len() == 0);
            assert(b@.skip(m as int).len() > 0);
            assert(lex_lt(a@, b@));
        } else if alen == blen {
            assert(a@ =~= b@);
        } else {
            assert(b@.skip(m as int).len() == 0);
            assert(!lex_lt(a@, b@));
            assert(a@.len() != b@.len());
            assert(a@ != b@);
        }
    }
    alen <= blen
}

/// ASCII lower-casing of one character, as `char::to_ascii_lowercase` does it.
pub open spec fn lower_char(c: char) -> char {
    if 'A' <= c && c <= 'Z' {
        (((c as u32) + 32) as char)
    } else {
        c
    }
}

pub open spec fn lower_seq(s: Seq<char>) -> Seq<char> {
    s.map_values(|c: char| lower_char(c))
}

pub fn to_lower_char(c: char) -> (r: char)
    ensures
        r == lower_char(c),
{
    if 'A' <= c && c <= 'Z' {
        let b: u8 = (c as u8) + 32;
        b as char
    } else {
        c
    }
}

pub fn to_lower_vec(v: &[char]) -> (out: Vec<char>)
    ensures
        out@ == lower_seq(v@),
{
    let mut out: Vec<char> = Vec::new();
    let mut i: usize = 0;
    while i < v.len()
        invariant
            i <= v@.len(),
            out@ == lower_seq(v@.subrange(0, i as int)),
        decreases v@.len() - i,
    {
        out.push(to_lower_char(v[i]));
        i = i + 1;
        proof {
            assert(out@ =~= lower_seq(v@.subrange(0, i as int)));
        }
    }
    proof {
        assert(v@.subrange(0, v@.len() as int) =~= v@);
    }
    out
}

/// ASCII-case-insensitive equality.
pub fn eq_ignore_ascii_case(a: &[char], b: &[char]) -> (r: bool)
    ensures
        r == (lower_seq(a@) == lower_seq(b@)),
{
    let la = to_lower_vec(a);
    let lb = to_lower_vec(b);
    chars_eq(la.as_slice(), lb.as_slice())
}

} // verus!

verus! {

/// Append every character of `src` to `dst`.
pub fn push_all(dst: &mut Vec<char>, src: &[char])
    ensures
        final(dst)@ == old(dst)@ + src@,
{
    let mut i: usize = 0;
    while i < src.len()
        invariant
            i <= src@.len(),
            dst@ == old(dst)@ + src@.subrange(0, i as int),
        decreases src@.len() - i,
    {
        dst.push(src[i]);
        i = i + 1;
        proof {
            assert(dst@ =~= old(dst)@ + src@.subrange(0, i as int));
        }
    }
    proof {
        assert(old(dst)@ + src@.subrange(0, src@.len() as int) =~= old(dst)@ + src@);
    }
}

/// Splitting at a separator, accumulator form: `cur` is the piece under
/// construction when the remainder `s` begins.
pub open spec fn split_rec(s: Seq<char>, sep: char, cur: Seq<char>) -> Seq<Seq<char>>
    decreases s.len(),
{
    if s.len() == 0 {
        seq![cur]
    } else if s[0] == sep {
        seq![cur] + split_rec(s.drop_first(), sep, Seq::empty())
    } else {
        split_rec(s.drop_first(), sep, cur.push(s[0]))
    }
}

/// What `str::split(sep)` yields.
pub open spec fn split_char(s: Seq<char>, sep: char) -> Seq<Seq<char>> {
    split_rec(s, sep, Seq::empty())
}

pub fn split_by(v: &[char], sep: char) -> (parts: Vec<Vec<char>>)
    ensures
        parts@.map_values(|p: Vec<char>| p@) == split_char(v@, sep),
{
    let n = v.len();
    let mut parts: Vec<Vec<char>> = Vec::new();
    let mut cur: Vec<char> = Vec::new();
    let mut i: usize = 0;
    proof {
        assert(v@.skip(0) =~= v@);
        assert(parts@.map_values(|p: Vec<char>| p@) + split_rec(v@, sep, cur@) =~= split_rec(
            v@,
            sep,
            cur@,
        ));
    }
    while i < n
        invariant
            n == v@.len(),
            i <= n,
            split_char(v@, sep) == parts@.map_values(|p: Vec<char>| p@) + split_rec(
                v@.skip(i as int),
                sep,
                cur@,
            ),
        decreases n - i,
    {
        let ghost rest = v@.skip(i as int);
        proof {
            assert(rest[0] == v@[i as int]);
            assert(rest.drop_first() =~= v@.skip(i as int + 1));
        }
        let c = v[i];
        if c == sep {
            let done = cur;
            cur = Vec::new();
            parts.push(done);
            proof {
                assert(parts@.map_values(|p: Vec<char>| p@) =~= parts@.drop_last().map_values(
                    |p: Vec<char>| p@,
                ).push(done@));
                assert(parts@.drop_last().map_values(|p: Vec<char>| p@).push(done@) + split_rec(
                    v@.skip(i as int + 1),
                    sep,
                    cur@,
                ) =~= parts@.drop_last().map_values(|p: Vec<char>| p@) + (seq![done@] + split_rec(
                    v@.skip(i as int + 1),
                    sep,
                    cur@,
                )));
            }
        } else {
            cur.push(c);
        }
        i = i + 1;
    }
    proof {
        assert(v@.skip(n as int).len() == 0);
    }
    parts.push(cur);
    proof {
        assert(parts@.map_values(|p: Vec<char>| p@) =~= parts@.drop_last().map_values(
            |p: Vec<char>| p@,
        ) + seq![parts@.last()@]);
    }
    parts
}

/// The parts that are not empty, in order.
pub open spec fn nonempty_parts(parts: Seq<Seq<char>>) -> Seq<Seq<char>>
    decreases parts.len(),
{
    if parts.len() == 0 {
        Seq::empty()
    } else {
        let rest = nonempty_parts(parts.drop_last());
        if parts.last().len() > 0 {
            rest.push(parts.last())
        } else {
            rest
        }
    }
}

pub fn filter_nonempty(parts: Vec<Vec<char>>) -> (out: Vec<Vec<char>>)
    ensures
        out@.map_values(|p: Vec<char>| p@) == nonempty_parts(
            parts@.map_values(|p: Vec<char>| p@),
        ),
{
    let mut out: Vec<Vec<char>> = Vec::new();
    let mut i: usize = 0;
    while i < parts.len()
        invariant
            i <= parts@.len(),
            out@.map_values(|p: Vec<char>| p@) == nonempty_parts(
                parts@.subrange(0, i as int).map_values(|p: Vec<char>| p@),
            ),
        decreases parts@.len() - i,
    {
        let ghost pre = parts@.subrange(0, i as int).map_values(|p: Vec<char>| p@);
        let ghost post = parts@.subrange(0, i as int + 1).map_values(|p: Vec<char>| p@);
        proof {
            assert(post.drop_last() =~= pre);
            assert(post.last() == parts@[i as int]@);
        }
        if parts[i].len() > 0 {
            let item = slice_range(parts[i].as_slice(), 0, parts[i].len());
            proof {
                assert(item@ =~= parts@[i as int]@);
            }
            out.push(item);
            proof {
                assert(out@.map_values(|p: Vec<char>| p@) =~= out@.drop_last().map_values(
                    |p: Vec<char>| p@,
                ).push(parts@[i as int]@));
            }
        }
        i = i + 1;
    }
    proof {
        assert(parts@.subrange(0, parts@.len() as int) =~= parts@);
    }
    out
}

/// Joining parts with a separator character.
pub open spec fn join_char(parts: Seq<Seq<char>>, sep: char) -> Seq<char>
    decreases parts.len(),
{
    if parts.len() == 0 {
        Seq::empty()
    } else if parts.len() == 1 {
        parts[0]
    } else {
        join_char(parts.drop_last(), sep).push(sep) + parts.last()
    }
}

pub fn join_with(parts: &Vec<Vec<char>>, sep: char) -> (out: Vec<char>)
    ensures
        out@ == join_char(parts@.map_values(|p: Vec<char>| p@), sep),
{
    let mut out: Vec<char> = Vec::new();
    let mut i: usize = 0;
    while i < parts.len()
        invariant
            i <= parts@.len(),
            out@ == join_char(parts@.subrange(0, i as int).map_values(|p: Vec<char>| p@), sep),
        decreases parts@.len() - i,
    {
        let ghost pre = parts@.subrange(0, i as int).map_values(|p: Vec<char>| p@);
        let ghost post = parts@.subrange(0, i as int + 1).map_values(|p: Vec<char>| p@);
        proof {
            assert(post.drop_last() =~= pre);
            assert(post.last() == parts@[i as int]@);
        }
        if i > 0 {
            out.push(sep);
        }
        push_all(&mut out, parts[i].as_slice());
        proof {
            if i > 0 {
                assert(out@ =~= join_char(pre, sep).push(sep) + parts@[i as int]@);
            } else {
                assert(out@ =~= parts@[i as int]@);
                assert(post.len() == 1);
            }
        }
        i = i + 1;
    }
    proof {
        assert(parts@.subrange(0, parts@.len() as int) =~= parts@);
    }
    out
}

} // verus!

verus! {

pub open spec fn is_dec_digit(c: char) -> bool {
    '0' <= c && c <= '9'
}

pub open spec fn digit_val(c: char) -> nat {
    ((c as u32) - ('0' as u32)) as nat
}

pub open spec fn all_digits(s: Seq<char>) -> bool {
    forall|i: int| 0 <= i < s.len() ==> is_dec_digit(s[i])
}

/// The value of a digit string, most significant digit first.
pub open spec fn dec_val(s: Seq<char>) -> nat
    decreases s.len(),
{
    if s.len() == 0 {
        0
    } else {
        dec_val(s.drop_last()) * 10 + digit_val(s.last())
    }
}

/// The digit part of an integer literal: `u64::from_str` and friends accept
/// one optional leading `+` before the digits.
pub open spec fn digits_of_int(s: Seq<char>) -> Seq<char> {
    if s.len() > 0 && s[0] == '+' {
        s.drop_first()
    } else {
        s
    }
}

/// The strings that `str::parse::<u64>` accepts.
pub open spec fn parses_as_u64(s: Seq<char>) -> bool {
    let d = digits_of_int(s);
    d.len() > 0 && all_digits(d) && dec_val(d) <= u64::MAX
}

proof fn lemma_dec_val_prefix(s: Seq<char>, j: int)
    requires
        0 <= j <= s.len(),
    ensures
        dec_val(s) >= dec_val(s.subrange(0, j)),
    decreases s.len(),
{
    if j < s.len() {
        lemma_dec_val_prefix(s.drop_last(), j);
        assert(s.drop_last().subrange(0, j) =~= s.subrange(0, j));
    } else {
        assert(s.subrange(0, j) =~= s);
    }
}

/// Parse a decimal `u64` the way `str::parse::<u64>` does.
pub fn parse_u64_chars(v: &[char]) -> (r: Option<u64>)
    ensures
        match r {
            Some(n) => parses_as_u64(v@) && n == dec_val(digits_of_int(v@)),
            None => !parses_as_u64(v@),
        },
{
    let n = v.len();
    let start: usize = if n > 0 && v[0] == '+' {
        1
    } else {
        0
    };
    let ghost d = digits_of_int(v@);
    proof {
        assert(d =~= v@.skip(start as int));
    }
    if start == n {
        return None;
    }
    let mut acc: u64 = 0;
    let mut i: usize = start;
    while i < n
        invariant
            n == v@.len(),
            start <= i <= n,
            start < n,
            d == digits_of_int(v@),
            d == v@.skip(start as int),
            forall|k: int| 0 <= k < i - start ==> is_dec_digit(d[k]),
            acc == dec_val(d.subrange(0, i - start)),
        decreases n - i,
    {
        let c = v[i];
        if !('0' <= c && c <= '9') {
            proof {
                assert(d[i - start] == c);
                assert(!all_digits(d));
            }
            return None;
        }
        let dd: u64 = ((c as u32) - 48) as u64;
        let ghost pre = d.subrange(0, i - start);
        let ghost post = d.subrange(0, i + 1 - start);
        proof {
            assert(post.drop_last() =~= pre);
            assert(post.last() == d[i - start]);
            assert(d[i - start] == c);
            assert(digit_val(c) == dd);
        }
        if acc > (u64::MAX - dd) / 10 {
            proof {
                assert(dec_val(post) == acc * 10 + dd);
                assert(acc * 10 + dd > u64::MAX) by (nonlinear_arith)
                    requires
                        acc > (u64::MAX - dd) / 10,
                        dd <= 9,
                ;
                lemma_dec_val_prefix(d, i + 1 - start);
                assert(dec_val(d) > u64::MAX);
            }
            return None;
        }
        proof {
            assert(acc * 10 + dd <= u64::MAX) by (nonlinear_arith)
                requires
                    acc <= (u64::MAX - dd) / 10,
                    dd <= 9,
            ;
        }
        acc = acc * 10 + dd;
        i = i + 1;
    }
    proof {
        assert(d.subrange(0, n - start) =~= d);
        assert(all_digits(d));
    }
    Some(acc)
}

/// Parse a decimal `u16` the way `str::parse::<u16>` does.
pub fn parse_u16_chars(v: &[char]) -> (r: Option<u16>)
    ensures
        match r {
            Some(n) => parses_as_u64(v@) && dec_val(digits_of_int(v@)) <= u16::MAX && n == dec_val(
                digits_of_int(v@),
            ),
            None => !parses_as_u64(v@) || dec_val(digits_of_int(v@)) > u16::MAX,
        },
{
    match parse_u64_chars(v) {
        Some(n) => {
            if n <= 65535 {
                Some(n as u16)
            } else {
                None
            }
        },
        None => None,
    }
}

pub open spec fn dec_digit_char(d: nat) -> char {
    (('0' as u32) + d) as char
}

/// The decimal representation of a number, most significant digit first.
pub open spec fn dec_repr(n: nat) -> Seq<char>
    decreases n,
{
    if n < 10 {
        seq![dec_digit_char(n)]
    } else {
        dec_repr(n / 10).push(dec_digit_char(n % 10))
    }
}

/// Reversal of a character sequence.
pub open spec fn rev_chars(s: Seq<char>) -> Seq<char>
    decreases s.len(),
{
    if s.len() == 0 {
        Seq::empty()
    } else {
        seq![s.last()] + rev_chars(s.drop_last())
    }
}

proof fn lemma_rev_index(s: Seq<char>)
    ensures
        rev_chars(s).len() == s.len(),
        forall|k: int| 0 <= k < s.len() ==> rev_chars(s)[k] == s[s.len() - 1 - k],
    decreases s.len(),
{
    if s.len() > 0 {
        lemma_rev_index(s.drop_last());
    }
}

/// Format a number in decimal, as `u64`'s `Display` does.
pub fn u64_to_dec_chars(n: u64) -> (out: Vec<char>)
    ensures
        out@ == dec_repr(n as nat),
{
    let mut digits: Vec<char> = Vec::new();
    let mut m: u64 = n;
    proof {
        assert(dec_repr(n as nat) =~= dec_repr(m as nat) + rev_chars(digits@));
    }
    loop
        invariant_except_break
            dec_repr(n as nat) == dec_repr(m as nat) + rev_chars(digits@),
        ensures
            dec_repr(n as nat) == rev_chars(digits@),
        decreases m,
    {
        let dd: u64 = m % 10;
        let c: char = ((48 + dd) as u8) as char;
        proof {
            assert(c == dec_digit_char((m % 10) as nat));
            assert((digits@.push(c)).drop_last() =~= digits@);
            assert(rev_chars(digits@.push(c)) =~= seq![c] + rev_chars(digits@));
            if m >= 10 {
                assert(dec_repr(m as nat) == dec_repr((m as nat) / 10).push(c));
                assert(dec_repr((m as nat) / 10).push(c) + rev_chars(digits@) =~= dec_repr(
                    (m as nat) / 10,
                ) + (seq![c] + rev_chars(digits@)));
                assert((m as nat) / 10 == (m / 10) as nat);
            } else {
                assert(dec_repr(m as nat) =~= seq![c]);
                assert(dec_repr(m as nat) + rev_chars(digits@) =~= seq![c] + rev_chars(digits@));
            }
        }
        digits.push(c);
        if m < 10 {
            break;
        }
        m = m / 10;
    }
    proof {
        lemma_rev_index(digits@);
    }
    let mut out: Vec<char> = Vec::new();
    let dn = digits.len();
    let mut j: usize = dn;
    while j > 0
        invariant
            dn == digits@.len(),
            j <= dn,
            out@.len() == dn - j,
            forall|k: int| 0 <= k < out@.len() ==> out@[k] == digits@[dn - 1 - k],
        decreases j,
    {
        out.push(digits[j - 1]);
        j = j - 1;
    }
    proof {
        assert(out@ =~= rev_chars(digits@));
    }
    out
}

/// Format a number in decimal directly as a `String`.
pub fn u64_to_string(n: u64) -> (s: String)
    ensures
        s@ == dec_repr(n as nat),
{
    let v = u64_to_dec_chars(n);
    string_of(v.as_slice())
}

} // verus!

verus! {

/// Position of the first occurrence of `needle` in `hay`, if any.
pub open spec fn first_occ(hay: Seq<char>, needle: Seq<char>) -> Option<int>
    decreases hay.len(),
{
    if occurs_at(hay, needle, 0) {
        Some(0int)
    } else if hay.len() == 0 {
        None
    } else {
        match first_occ(hay.drop_first(), needle) {
            Some(i) => Some(i + 1),
            None => None,
        }
    }
}

pub proof fn lemma_first_occ(hay: Seq<char>, needle: Seq<char>)
    ensures
        match first_occ(hay, needle) {
            Some(i) => occurs_at(hay, needle, i) && forall|j: int|
                0 <= j < i ==> !occurs_at(hay, needle, j),
            None => forall|j: int| !occurs_at(hay, needle, j),
        },
    decreases hay.len(),
{
    if !occurs_at(hay, needle, 0) && hay.len() > 0 {
        lemma_first_occ(hay.drop_first(), needle);
        assert(forall|j: int| occurs_at(hay, needle, j) && j >= 1 ==> occurs_at(
            hay.drop_first(),
            needle,
            j - 1,
        )) by {
            assert(forall|j: int|
                occurs_at(hay, needle, j) && j >= 1 ==> hay.drop_first().subrange(
                    j - 1,
                    j - 1 + needle.len(),
                ) =~= hay.subrange(j, j + needle.len()));
        }
        assert(forall|j: int| occurs_at(hay.drop_first(), needle, j) ==> occurs_at(
            hay,
            needle,
            j + 1,
        )) by {
            assert(forall|j: int|
                occurs_at(hay.drop_first(), needle, j) ==> hay.subrange(
                    j + 1,
                    j + 1 + needle.len(),
                ) =~= hay.drop_first().subrange(j, j + needle.len()));
        }
    }
}

/// `find_sub`, stated against the recursive `first_occ` definition.
pub fn find_first(hay: &[char], needle: &[char]) -> (r: Option<usize>)
    ensures
        match r {
            Some(i) => first_occ(hay@, needle@) == Some(i as int),
            None => first_occ(hay@, needle@) == None::<int>,
        },
{
    let r = find_sub(hay, needle);
    proof {
        lemma_first_occ(hay@, needle@);
        match r {
            Some(i) => {
                match first_occ(hay@, needle@) {
                    Some(k) => {
                        assert(!(k < i) && !(i < k));
                    },
                    None => {
                        assert(false);
                    },
                }
            },
            None => {
                match first_occ(hay@, needle@) {
                    Some(k) => {
                        assert(occurs_at(hay@, needle@, k));
                        assert(false);
                    },
                    None => {},
                }
            },
        }
    }
    r
}

/// Position of the last occurrence of character `c` in `s`, if any.
pub open spec fn last_occ_char(s: Seq<char>, c: char) -> Option<int>
    decreases s.len(),
{
    if s.len() == 0 {
        None
    } else if s.last() == c {
        Some(s.len() - 1)
    } else {
        last_occ_char(s.drop_last(), c)
    }
}

pub proof fn lemma_last_occ_char(s: Seq<char>, c: char)
    ensures
        match last_occ_char(s, c) {
            Some(i) => 0 <= i < s.len() && s[i] == c && forall|j: int|
                i < j < s.len() ==> s[j] != c,
            None => forall|j: int| 0 <= j < s.len() ==> s[j] != c,
        },
    decreases s.len(),
{
    if s.len() > 0 && s.last() != c {
        lemma_last_occ_char(s.drop_last(), c);
        let d = s.drop_last();
        match last_occ_char(d, c) {
            Some(i) => {
                assert forall|j: int| i < j < s.len() implies s[j] != c by {
                    if j < s.len() - 1 {
                        assert(d[j] != c);
                    }
                }
            },
            None => {
                assert forall|j: int| 0 <= j < s.len() implies s[j] != c by {
                    if j < s.len() - 1 {
                        assert(d[j] != c);
                    }
                }
            },
        }
    }
}

/// Find the last occurrence of a character.
pub fn rfind_char(v: &[char], c: char) -> (r: Option<usize>)
    ensures
        match r {
            Some(i) => last_occ_char(v@, c) == Some(i as int),
            None => last_occ_char(v@, c) == None::<int>,
        },
{
    let mut j: usize = v.len();
    while j > 0
        invariant
            j <= v@.len(),
            forall|k: int| j <= k < v@.len() ==> v@[k] != c,
        decreases j,
    {
        if v[j - 1] == c {
            proof {
                lemma_last_occ_char(v@, c);
                match last_occ_char(v@, c) {
                    Some(i) => {
                        assert(!(i < j - 1) && !(j - 1 < i));
                    },
                    None => {
                        assert(false);
                    },
                }
            }
            return Some(j - 1);
        }
        j = j - 1;
    }
    proof {
        lemma_last_occ_char(v@, c);
        match last_occ_char(v@, c) {
            Some(i) => {
                assert(false);
            },
            None => {},
        }
    }
    None
}

/// Replace every backslash with a forward slash, as the path handling does
/// throughout.
pub open spec fn slashify(s: Seq<char>) -> Seq<char> {
    s.map_values(|c: char| if c == '\\' { '/' } else { c })
}

pub fn to_slashes(v: &[char]) -> (out: Vec<char>)
    ensures
        out@ == slashify(v@),
{
    let mut out: Vec<char> = Vec::new();
    let mut i: usize = 0;
    while i < v.len()
        invariant
            i <= v@.len(),
            out@ == slashify(v@.subrange(0, i as int)),
        decreases v@.len() - i,
    {
        let c = v[i];
        if c == '\\' {
            out.push('/');
        } else {
            out.push(c);
        }
        i = i + 1;
        proof {
            assert(out@ =~= slashify(v@.subrange(0, i as int)));
        }
    }
    proof {
        assert(v@.subrange(0, v@.len() as int) =~= v@);
    }
    out
}

/// Strip every leading repetition of `p`, as `str::trim_start_matches` does.
pub open spec fn strip_all_prefix(s: Seq<char>, p: Seq<char>) -> Seq<char>
    decreases s.len(),
{
    if p.len() > 0 && is_prefix(p, s) && s.len() >= p.len() {
        if s.len() == p.len() {
            Seq::empty()
        } else {
            strip_all_prefix(s.skip(p.len() as int), p)
        }
    } else {
        s
    }
}

pub fn trim_start_matches_seq(v: Vec<char>, p: &[char]) -> (out: Vec<char>)
    ensures
        out@ == strip_all_prefix(v@, p@),
{
    let mut cur = v;
    while p.len() > 0 && starts_with(cur.as_slice(), p)
        invariant
            strip_all_prefix(cur@, p@) == strip_all_prefix(v@, p@),
        decreases cur@.len(),
    {
        if cur.len() == p.len() {
            cur = Vec::new();
            proof {
                assert(strip_all_prefix(cur@, p@) =~= Seq::<char>::empty());
            }
        } else {
            let next = slice_range(cur.as_slice(), p.len(), cur.len());
            proof {
                assert(next@ =~= cur@.skip(p@.len() as int));
            }
            cur = next;
        }
    }
    cur
}

/// Whether some element of `parts` is exactly `pat`.
pub fn contains_part(parts: &Vec<Vec<char>>, pat: &[char]) -> (r: bool)
    ensures
        r == parts@.map_values(|p: Vec<char>| p@).contains(pat@),
{
    let ghost pv = parts@.map_values(|p: Vec<char>| p@);
    let mut i: usize = 0;
    while i < parts.len()
        invariant
            pv == parts@.map_values(|p: Vec<char>| p@),
            i <= parts@.len(),
            forall|k: int| 0 <= k < i ==> pv[k] != pat@,
        decreases parts@.len() - i,
    {
        if chars_eq(parts[i].as_slice(), pat) {
            proof {
                assert(pv[i as int] == pat@);
            }
            return true;
        }
        i = i + 1;
    }
    proof {
        if pv.contains(pat@) {
            let k = choose|k: int| 0 <= k < pv.len() && pv[k] == pat@;
            assert(false);
        }
    }
    false
}

} // verus!

verus! {

pub proof fn lemma_lex_lt_irrefl(a: Seq<char>)
    ensures
        !lex_lt(a, a),
    decreases a.len(),
{
    if a.len() > 0 {
        lemma_lex_lt_irrefl(a.drop_first());
    }
}

/// Of two distinct strings one precedes the other.
pub proof fn lemma_lex_lt_total(a: Seq<char>, b: Seq<char>)
    ensures
        lex_lt(a, b) || lex_lt(b, a) || a == b,
    decreases a.len(),
{
    if a.len() > 0 && b.len() > 0 {
        if a[0] == b[0] {
            lemma_lex_lt_total(a.drop_first(), b.drop_first());
            if a.drop_first() == b.drop_first() {
                assert(a =~= seq![a[0]] + a.drop_first());
                assert(b =~= seq![b[0]] + b.drop_first());
            }
        } else {
            assert((a[0] as int) != (b[0] as int));
        }
    } else if a.len() == 0 && b.len() == 0 {
        assert(a =~= b);
    }
}

/// Lexicographic order is transitive.
pub proof fn lemma_lex_lt_trans(a: Seq<char>, b: Seq<char>, c: Seq<char>)
    requires
        lex_lt(a, b),
        lex_lt(b, c),
    ensures
        lex_lt(a, c),
    decreases a.len(),
{
    if a.len() > 0 && b.len() > 0 && c.len() > 0 {
        if a[0] == b[0] && b[0] == c[0] {
            lemma_lex_lt_trans(a.drop_first(), b.drop_first(), c.drop_first());
        }
    }
}

/// Strict lexicographic comparison.
pub fn chars_lt(a: &[char], b: &[char]) -> (r: bool)
    ensures
        r == lex_lt(a@, b@),
{
    let le = chars_le(a, b);
    let eq = chars_eq(a, b);
    proof {
        if eq {
            lemma_lex_lt_irrefl(a@);
        }
    }
    le && !eq
}

} // verus!

verus! {

/// Addition that sticks at the machine word's ceiling.
pub open spec fn sat_add(a: int, b: int) -> int {
    if a + b > usize::MAX as int {
        usize::MAX as int
    } else {
        a + b
    }
}

pub fn usat_add(a: usize, b: usize) -> (c: usize)
    ensures
        c as int == sat_add(a as int, b as int),
{
    if a > usize::MAX - b {
        usize::MAX
    } else {
        a + b
    }
}

/// The UTF-8 encoded length of one character, as `char::len_utf8` gives it.
pub open spec fn utf8_len(c: char) -> int {
    if (c as int) < 0x80 {
        1
    } else if (c as int) < 0x800 {
        2
    } else if (c as int) < 0x10000 {
        3
    } else {
        4
    }
}

pub fn utf8_len_exec(c: char) -> (n: usize)
    ensures
        n as int == utf8_len(c),
{
    if (c as u32) < 0x80 {
        1
    } else if (c as u32) < 0x800 {
        2
    } else if (c as u32) < 0x10000 {
        3
    } else {
        4
    }
}

/// The byte offset of character position `i` in the UTF-8 encoding of `s`,
/// saturating at the machine word.
pub open spec fn byte_pos(s: Seq<char>, i: int) -> int
    decreases i,
{
    if i <= 0 {
        0
    } else {
        sat_add(byte_pos(s, i - 1), utf8_len(s[i - 1]))
    }
}

} // verus!
