//! Text helpers over `String` and `&str`, specified over their `Seq<char>` views,
//! and the lexicographic order on keys that the ordered maps of this crate use.

use vstd::prelude::*;

verus! {

/// `String::push`. The contract claims that the string's characters become
/// the old ones followed by `c`, as the method's documentation says.
#[verifier::external_body]
pub(crate) fn push_char(s: &mut String, c: char)
    ensures
        final(s)@ == old(s)@.push(c),
{
    s.push(c);
}

/// The characters of `s`, in order.
pub fn to_chars(s: &str) -> (v: Vec<char>)
    ensures
        v@ == s@,
{
    let mut v: Vec<char> = Vec::new();
    for c in it: s.chars()
        invariant
            v@ == it.seq().take(it.index() as int),
    {
        v.push(c);
    }
    v
}

/// A `String` holding the characters of `v@.subrange(from, to)`.
pub fn string_from_range(v: &Vec<char>, from: usize, to: usize) -> (s: String)
    requires
        from <= to <= v@.len(),
    ensures
        s@ == v@.subrange(from as int, to as int),
{
    let mut s = String::new();
    let mut i = from;
    while i < to
        invariant
            from <= i <= to <= v@.len(),
            s@ == v@.subrange(from as int, i as int),
        decreases to - i,
    {
        push_char(&mut s, v[i]);
        i = i + 1;
    }
    s
}

/// A `String` holding the characters of `v`.
pub fn string_from_chars(v: &Vec<char>) -> (s: String)
    ensures
        s@ == v@,
{
    string_from_range(v, 0, v.len())
}

/// Appends the characters of `t` to `s`.
pub fn push_str(s: &mut String, t: &str)
    ensures
        final(s)@ == old(s)@ + t@,
{
    let ghost start = s@;
    let tc = to_chars(t);
    let mut i: usize = 0;
    while i < tc.len()
        invariant
            i <= tc@.len(),
            tc@ == t@,
            s@ == start + tc@.subrange(0, i as int),
        decreases tc@.len() - i,
    {
        push_char(s, tc[i]);
        i = i + 1;
        assert(tc@.subrange(0, i as int) == tc@.subrange(0, i - 1).push(tc@[i - 1]));
    }
    assert(tc@.subrange(0, tc@.len() as int) == tc@);
}

/// The concatenation of `a` and `b`.
pub fn concat(a: &str, b: &str) -> (s: String)
    ensures
        s@ == a@ + b@,
{
    let mut s = String::new();
    push_str(&mut s, a);
    push_str(&mut s, b);
    assert(s@ == a@ + b@);
    s
}

/// A copy of `a` as an owned `String`.
pub fn to_owned_string(a: &str) -> (s: String)
    ensures
        s@ == a@,
{
    let mut s = String::new();
    push_str(&mut s, a);
    assert(s@ == a@);
    s
}

/// Whether two character sequences are equal.
pub fn chars_equal(a: &Vec<char>, b: &Vec<char>) -> (r: bool)
    ensures
        r == (a@ == b@),
{
    if a.len() != b.len() {
        return false;
    }
    let mut i: usize = 0;
    while i < a.len()
        invariant
            a@.len() == b@.len(),
            i <= a@.len(),
            forall|j: int| 0 <= j < i ==> a@[j] == b@[j],
        decreases a@.len() - i,
    {
        if a[i] != b[i] {
            return false;
        }
        i = i + 1;
    }
    assert(a@ =~= b@);
    true
}

/// Whether two strings hold the same characters.
pub fn str_equal(a: &str, b: &str) -> (r: bool)
    ensures
        r == (a@ == b@),
{
    let ac = to_chars(a);
    let bc = to_chars(b);
    chars_equal(&ac, &bc)
}

/// Lexicographic order on character sequences, comparing characters by code point.
/// For strings this is the order of their UTF-8 bytes, the order of `String`'s `Ord`.
pub open spec fn key_lt(a: Seq<char>, b: Seq<char>) -> bool
    decreases a.len(),
{
    if a.len() == 0 {
        b.len() > 0
    } else if b.len() == 0 {
        false
    } else if a[0] != b[0] {
        (a[0] as int) < (b[0] as int)
    } else {
        key_lt(a.drop_first(), b.drop_first())
    }
}

/// No key is below itself.
pub proof fn lemma_key_lt_irreflexive(a: Seq<char>)
    ensures
        !key_lt(a, a),
    decreases a.len(),
{
    if a.len() > 0 {
        lemma_key_lt_irreflexive(a.drop_first());
    }
}

/// The key order is transitive.
pub proof fn lemma_key_lt_transitive(a: Seq<char>, b: Seq<char>, c: Seq<char>)
    requires
        key_lt(a, b),
        key_lt(b, c),
    ensures
        key_lt(a, c),
    decreases a.len(),
{
    if a.len() > 0 && b.len() > 0 && c.len() > 0 && a[0] == b[0] && b[0] == c[0] {
        lemma_key_lt_transitive(a.drop_first(), b.drop_first(), c.drop_first());
    }
}

/// Two distinct keys are ordered one way or the other.
pub proof fn lemma_key_lt_total(a: Seq<char>, b: Seq<char>)
    requires
        a != b,
    ensures
        key_lt(a, b) || key_lt(b, a),
    decreases a.len(),
{
    if a.len() == 0 && b.len() == 0 {
        assert(a =~= b);
    } else if a.len() > 0 && b.len() > 0 {
        if a[0] == b[0] {
            if a.drop_first() == b.drop_first() {
                assert(a =~= seq![a[0]] + a.drop_first());
                assert(b =~= seq![b[0]] + b.drop_first());
            }
            lemma_key_lt_total(a.drop_first(), b.drop_first());
        } else {
            assert((a[0] as int) != (b[0] as int));
        }
    }
}

/// Whether `a` comes before `b` in the key order.
pub fn chars_lt(a: &Vec<char>, b: &Vec<char>) -> (r: bool)
    ensures
        r == key_lt(a@, b@),
{
    let mut i: usize = 0;
    assert(a@.skip(0) =~= a@);
    assert(b@.skip(0) =~= b@);
    while i < a.len() && i < b.len()
        invariant
            i <= a@.len(),
            i <= b@.len(),
            a@.subrange(0, i as int) == b@.subrange(0, i as int),
            key_lt(a@, b@) == key_lt(a@.skip(i as int), b@.skip(i as int)),
        decreases a@.len() - i,
    {
        if a[i] != b[i] {
            assert(a@.skip(i as int)[0] == a@[i as int]);
            assert(b@.skip(i as int)[0] == b@[i as int]);
            return a[i] < b[i];
        }
        assert(a@.skip(i as int).drop_first() == a@.skip(i + 1));
        assert(b@.skip(i as int).drop_first() == b@.skip(i + 1));
        assert(a@.subrange(0, i + 1) == a@.subrange(0, i as int).push(a@[i as int]));
        assert(b@.subrange(0, i + 1) == b@.subrange(0, i as int).push(b@[i as int]));
        i = i + 1;
    }
    i < b.len()
}

/// Whether `a` comes before `b` in the key order.
pub fn str_lt(a: &str, b: &str) -> (r: bool)
    ensures
        r == key_lt(a@, b@),
{
    let ac = to_chars(a);
    let bc = to_chars(b);
    chars_lt(&ac, &bc)
}

/// The pieces of `s` between occurrences of `sep`, as `str::split` with a
/// `char` pattern yields them: always at least one piece, possibly empty ones.
pub open spec fn split_on(s: Seq<char>, sep: char) -> Seq<Seq<char>>
    decreases s.len(),
{
    if s.len() == 0 {
        seq![Seq::<char>::empty()]
    } else {
        let rest = split_on(s.drop_first(), sep);
        if s[0] == sep {
            seq![Seq::<char>::empty()] + rest
        } else {
            rest.update(0, seq![s[0]] + rest[0])
        }
    }
}

/// `split_on` always yields at least one piece.
pub proof fn lemma_split_on_nonempty(s: Seq<char>, sep: char)
    ensures
        split_on(s, sep).len() >= 1,
    decreases s.len(),
{
    if s.len() > 0 {
        lemma_split_on_nonempty(s.drop_first(), sep);
    }
}

/// The pieces of `rest`, with `cur` glued to the front of the first one.
pub open spec fn split_with_front(cur: Seq<char>, rest: Seq<char>, sep: char) -> Seq<Seq<char>> {
    let r = split_on(rest, sep);
    r.update(0, cur + r[0])
}

/// The pieces of `s` between occurrences of `sep`.
pub fn split_char(s: &str, sep: char) -> (parts: Vec<String>)
    ensures
        parts@.map_values(|p: String| p@) == split_on(s@, sep),
{
    let chars = to_chars(s);
    let mut parts: Vec<String> = Vec::new();
    let mut start: usize = 0;
    let mut i: usize = 0;
    proof {
        lemma_split_on_nonempty(chars@, sep);
        assert(chars@.skip(0) =~= chars@);
        assert(split_on(chars@, sep) =~= split_with_front(Seq::<char>::empty(), chars@, sep));
    }
    while i < chars.len()
        invariant
            start <= i <= chars@.len(),
            chars@ == s@,
            split_on(s@, sep) == parts@.map_values(|p: String| p@) + split_with_front(
                chars@.subrange(start as int, i as int),
                chars@.skip(i as int),
                sep,
            ),
        decreases chars@.len() - i,
    {
        let ghost rest = chars@.skip(i as int);
        let ghost cur = chars@.subrange(start as int, i as int);
        proof {
            assert(rest.drop_first() =~= chars@.skip(i + 1));
            lemma_split_on_nonempty(rest.drop_first(), sep);
        }
        if chars[i] == sep {
            let piece = string_from_range(&chars, start, i);
            let ghost before = parts@.map_values(|p: String| p@);
            parts.push(piece);
            i = i + 1;
            start = i;
            proof {
                assert(parts@.map_values(|p: String| p@) =~= before.push(cur));
                let r = split_on(chars@.skip(i as int), sep);
                assert(split_with_front(cur, rest, sep) =~= seq![cur] + r);
                assert(chars@.subrange(start as int, i as int) =~= Seq::<char>::empty());
                assert(split_with_front(Seq::<char>::empty(), chars@.skip(i as int), sep) =~= r);
            }
        } else {
            i = i + 1;
            proof {
                let r = split_on(chars@.skip(i as int), sep);
                assert(chars@.subrange(start as int, i as int) =~= cur.push(rest[0]));
                assert(rest[0] != sep);
                assert(split_on(rest, sep) == r.update(0, seq![rest[0]] + r[0]));
                assert(cur + (seq![rest[0]] + r[0]) =~= cur.push(rest[0]) + r[0]);
                assert(split_with_front(cur, rest, sep) =~= split_with_front(cur.push(rest[0]), chars@.skip(i as int), sep));
            }
        }
    }
    let ghost cur = chars@.subrange(start as int, i as int);
    let last = string_from_range(&chars, start, i);
    let ghost before = parts@.map_values(|p: String| p@);
    parts.push(last);
    proof {
        assert(chars@.skip(i as int) =~= Seq::<char>::empty());
        assert(split_with_front(cur, chars@.skip(i as int), sep) =~= seq![cur]);
        assert(parts@.map_values(|p: String| p@) =~= before.push(cur));
    }
    parts
}

/// `s` with every occurrence of `pat` replaced by `rep`, scanning left to right
/// without overlaps, as `str::replace` does for a non-empty pattern.
pub open spec fn replace_spec(s: Seq<char>, pat: Seq<char>, rep: Seq<char>) -> Seq<char>
    decreases s.len(),
{
    if s.len() == 0 || pat.len() == 0 {
        s
    } else if pat.len() <= s.len() && s.take(pat.len() as int) == pat {
        rep + replace_spec(s.skip(pat.len() as int), pat, rep)
    } else {
        seq![s[0]] + replace_spec(s.drop_first(), pat, rep)
    }
}

/// Whether `pat` occurs in `s` at position `i`.
pub fn occurs_at(s: &Vec<char>, i: usize, pat: &Vec<char>) -> (b: bool)
    requires
        i <= s@.len(),
    ensures
        b == (pat@.len() <= s@.len() - i && s@.skip(i as int).take(pat@.len() as int) == pat@),
{
    let n = s.len();
    if pat.len() > n - i {
        return false;
    }
    let mut j: usize = 0;
    while j < pat.len()
        invariant
            n == s@.len(),
            i <= s@.len(),
            pat@.len() <= s@.len() - i,
            j <= pat@.len(),
            forall|k: int| 0 <= k < j ==> s@[i + k] == pat@[k],
        decreases pat@.len() - j,
    {
        assert(i + j < s@.len());
        if s[i + j] != pat[j] {
            assert(s@.skip(i as int).take(pat@.len() as int)[j as int] != pat@[j as int]);
            return false;
        }
        j = j + 1;
    }
    assert(s@.skip(i as int).take(pat@.len() as int) =~= pat@);
    true
}

/// `s` with every occurrence of the non-empty `pat` replaced by `rep`.
pub fn replace_all(s: &str, pat: &str, rep: &str) -> (r: String)
    requires
        pat@.len() > 0,
    ensures
        r@ == replace_spec(s@, pat@, rep@),
{
    let sc = to_chars(s);
    let pc = to_chars(pat);
    let mut r = String::new();
    let mut i: usize = 0;
    assert(sc@.skip(0) =~= sc@);
    while i < sc.len()
        invariant
            i <= sc@.len(),
            sc@ == s@,
            pc@ == pat@,
            pat@.len() > 0,
            replace_spec(s@, pat@, rep@) == r@ + replace_spec(sc@.skip(i as int), pat@, rep@),
        decreases sc@.len() - i,
    {
        let ghost rest = sc@.skip(i as int);
        if occurs_at(&sc, i, &pc) {
            push_str(&mut r, rep);
            proof {
                assert(rest.skip(pat@.len() as int) =~= sc@.skip(i + pat@.len()));
                assert(r@ + replace_spec(sc@.skip(i + pat@.len()), pat@, rep@) =~= (r@.subrange(0, r@.len() - rep@.len())) + (rep@ + replace_spec(sc@.skip(i + pat@.len()), pat@, rep@)));
            }
            i = i + pc.len();
        } else {
            push_char(&mut r, sc[i]);
            proof {
                assert(rest.drop_first() =~= sc@.skip(i + 1));
                assert(rest[0] == sc@[i as int]);
                assert(r@ + replace_spec(sc@.skip(i + 1), pat@, rep@) =~= r@.drop_last() + (seq![sc@[i as int]] + replace_spec(sc@.skip(i + 1), pat@, rep@)));
            }
            i = i + 1;
        }
    }
    proof {
        assert(sc@.skip(i as int).len() == 0);
        assert(r@ + Seq::<char>::empty() =~= r@);
    }
    r
}

/// `s` without `prefix` at its front, when it starts with it.
pub open spec fn strip_prefix_spec(s: Seq<char>, prefix: Seq<char>) -> Option<Seq<char>> {
    if prefix.len() <= s.len() && s.take(prefix.len() as int) == prefix {
        Some(s.skip(prefix.len() as int))
    } else {
        None
    }
}

/// `str::strip_prefix` with a string pattern.
pub fn strip_prefix(s: &str, prefix: &str) -> (r: Option<String>)
    ensures
        r matches Some(t) ==> strip_prefix_spec(s@, prefix@) == Some(t@),
        r is None ==> strip_prefix_spec(s@, prefix@) is None,
{
    let sc = to_chars(s);
    let pc = to_chars(prefix);
    assert(sc@.skip(0) =~= sc@);
    if occurs_at(&sc, 0, &pc) {
        Some(string_from_range(&sc, pc.len(), sc.len()))
    } else {
        None
    }
}

/// The characters with the Unicode `White_Space` property, which
/// `char::is_whitespace` and `str::trim` go by.
pub open spec fn is_white_space(c: char) -> bool {
    ||| '\u{9}' <= c <= '\u{d}'
    ||| c == ' '
    ||| c == '\u{85}'
    ||| c == '\u{a0}'
    ||| c == '\u{1680}'
    ||| '\u{2000}' <= c <= '\u{200a}'
    ||| c == '\u{2028}'
    ||| c == '\u{2029}'
    ||| c == '\u{202f}'
    ||| c == '\u{205f}'
    ||| c == '\u{3000}'
}

/// Whether `c` is white space.
pub fn char_is_white_space(c: char) -> (b: bool)
    ensures
        b == is_white_space(c),
{
    ('\u{9}' <= c && c <= '\u{d}') || c == ' ' || c == '\u{85}' || c == '\u{a0}' || c == '\u{1680}'
        || ('\u{2000}' <= c && c <= '\u{200a}') || c == '\u{2028}' || c == '\u{2029}' || c
        == '\u{202f}' || c == '\u{205f}' || c == '\u{3000}'
}

/// `s` without white space at its front.
pub open spec fn trim_start_spec(s: Seq<char>) -> Seq<char>
    decreases s.len(),
{
    if s.len() > 0 && is_white_space(s[0]) {
        trim_start_spec(s.drop_first())
    } else {
        s
    }
}

/// `s` without white space at its end.
pub open spec fn trim_end_spec(s: Seq<char>) -> Seq<char>
    decreases s.len(),
{
    if s.len() > 0 && is_white_space(s.last()) {
        trim_end_spec(s.drop_last())
    } else {
        s
    }
}

/// `str::trim`: `s` without white space at either end.
pub open spec fn trim_spec(s: Seq<char>) -> Seq<char> {
    trim_end_spec(trim_start_spec(s))
}

/// `s` without white space at either end.
pub fn trim(s: &str) -> (r: String)
    ensures
        r@ == trim_spec(s@),
{
    let sc = to_chars(s);
    let mut a: usize = 0;
    assert(sc@.subrange(0, sc@.len() as int) =~= sc@);
    while a < sc.len() && char_is_white_space(sc[a])
        invariant
            a <= sc@.len(),
            trim_start_spec(sc@) == trim_start_spec(sc@.subrange(a as int, sc@.len() as int)),
        decreases sc@.len() - a,
    {
        assert(sc@.subrange(a as int, sc@.len() as int).drop_first() =~= sc@.subrange(a + 1, sc@.len() as int));
        a = a + 1;
    }
    let mut b: usize = sc.len();
    assert(trim_start_spec(sc@) == sc@.subrange(a as int, b as int));
    while b > a && char_is_white_space(sc[b - 1])
        invariant
            a <= b <= sc@.len(),
            trim_spec(sc@) == trim_end_spec(sc@.subrange(a as int, b as int)),
        decreases b,
    {
        assert(sc@.subrange(a as int, b as int).drop_last() =~= sc@.subrange(a as int, b - 1));
        b = b - 1;
    }
    string_from_range(&sc, a, b)
}

/// The first position, from `i` on, where `pat` occurs in `s`.
pub open spec fn find_from(s: Seq<char>, pat: Seq<char>, i: int) -> Option<int>
    decreases s.len() - i,
{
    if i < 0 || i + pat.len() > s.len() {
        None
    } else if pat.len() == 0 || s.subrange(i, i + pat.len()) == pat {
        Some(i)
    } else {
        find_from(s, pat, i + 1)
    }
}

/// `str::split_once`: the text before and after the first occurrence of `pat`.
pub open spec fn split_once_spec(s: Seq<char>, pat: Seq<char>) -> Option<(Seq<char>, Seq<char>)> {
    match find_from(s, pat, 0) {
        Some(i) => Some((s.take(i), s.skip(i + pat.len()))),
        None => None,
    }
}

/// The text before and after the first occurrence of `pat` in `s`.
pub fn split_once(s: &str, pat: &str) -> (r: Option<(String, String)>)
    ensures
        match split_once_spec(s@, pat@) {
            Some((a, b)) => r matches Some((x, y)) && x@ == a && y@ == b,
            None => r is None,
        },
{
    let sc = to_chars(s);
    let pc = to_chars(pat);
    let n = sc.len();
    let m = pc.len();
    if m > n {
        return None;
    }
    let mut i: usize = 0;
    while i <= n - m
        invariant
            m <= n,
            n == sc@.len(),
            m == pc@.len(),
            sc@ == s@,
            pc@ == pat@,
            i <= n - m + 1,
            find_from(s@, pat@, 0) == find_from(s@, pat@, i as int),
        decreases n - m + 1 - i,
    {
        if occurs_at(&sc, i, &pc) {
            proof {
                assert(sc@.skip(i as int).take(m as int) =~= sc@.subrange(i as int, i + m));
            }
            let before = string_from_range(&sc, 0, i);
            let after = string_from_range(&sc, i + m, n);
            proof {
                assert(before@ =~= s@.take(i as int));
                assert(after@ =~= s@.skip(i + m));
            }
            return Some((before, after));
        }
        proof {
            assert(sc@.skip(i as int).take(m as int) =~= sc@.subrange(i as int, i + m));
            if m == 0 {
                assert(sc@.skip(i as int).take(0) =~= pc@);
            }
        }
        i = i + 1;
    }
    None
}

/// Whether `pat` occurs somewhere in `s`.
pub open spec fn contains_spec(s: Seq<char>, pat: Seq<char>) -> bool {
    find_from(s, pat, 0) is Some
}

/// Whether `pat` occurs in `s`.
pub fn contains_text(s: &str, pat: &str) -> (b: bool)
    ensures
        b == contains_spec(s@, pat@),
{
    split_once(s, pat).is_some()
}

/// Whether `c` is an ASCII letter or digit.
pub open spec fn is_ascii_alnum(c: char) -> bool {
    ('0' <= c <= '9') || ('a' <= c <= 'z') || ('A' <= c <= 'Z')
}

/// ASCII lower-casing: upper-case letters to lower case, every other character kept.
pub open spec fn ascii_lower(c: char) -> char {
    if 'A' <= c <= 'Z' {
        ((c as int) + 32) as char
    } else {
        c
    }
}

/// Whether every character of `s` is ASCII.
pub open spec fn is_ascii_text(s: Seq<char>) -> bool {
    forall|i: int| 0 <= i < s.len() ==> (#[trigger] s[i] as u32) < 128
}

/// `s` with its ASCII upper-case letters lower-cased.
pub open spec fn ascii_lowercase(s: Seq<char>) -> Seq<char> {
    s.map_values(|c: char| ascii_lower(c))
}

/// What `str::to_lowercase` gives: the Unicode lower-case mapping of the text,
/// in which most characters map on their own and a capital sigma maps by
/// whether it ends a word.
pub uninterp spec fn lowercase_spec(s: Seq<char>) -> Seq<char>;

/// `str::to_lowercase`. The contract names the result by `lowercase_spec` of
/// the characters: the same characters always give the same result. On ASCII
/// text it is stated: `A` to `Z` become `a` to `z` and every other character
/// stays. The Unicode mapping beyond ASCII is left unstated.
#[verifier::external_body]
pub(crate) fn to_lowercase(s: &str) -> (r: String)
    ensures
        r@ == lowercase_spec(s@),
        is_ascii_text(s@) ==> r@ == ascii_lowercase(s@),
{
    s.to_lowercase()
}

/// Whether `char::is_alphanumeric` holds: the character is Unicode alphabetic or numeric.
pub uninterp spec fn is_alphanumeric_spec(c: char) -> bool;

/// `char::is_alphanumeric`. The contract names the result by
/// `is_alphanumeric_spec`; on an ASCII character it is stated: exactly the
/// letters and digits. Which other characters Unicode counts as alphabetic or
/// numeric is left unstated.
#[verifier::external_body]
pub(crate) fn char_is_alphanumeric(c: char) -> (b: bool)
    ensures
        b == is_alphanumeric_spec(c),
        (c as u32) < 128 ==> (b == is_ascii_alnum(c)),
{
    c.is_alphanumeric()
}

/// A text without the separator is one piece.
pub proof fn lemma_split_without_sep(s: Seq<char>, sep: char)
    requires
        !s.contains(sep),
    ensures
        split_on(s, sep) == seq![s],
    decreases s.len(),
{
    if s.len() == 0 {
        assert(s =~= Seq::<char>::empty());
        assert(split_on(s, sep) =~= seq![s]);
    } else {
        assert(!s.drop_first().contains(sep)) by {
            if s.drop_first().contains(sep) {
                let k = choose|k: int| 0 <= k < s.drop_first().len() && s.drop_first()[k] == sep;
                assert(s[k + 1] == sep);
            }
        }
        lemma_split_without_sep(s.drop_first(), sep);
        assert(s[0] != sep) by {
            if s[0] == sep {
                assert(s.contains(sep));
            }
        }
        assert(seq![s[0]] + s.drop_first() =~= s);
        let rest = split_on(s.drop_first(), sep);
        assert(rest == seq![s.drop_first()]);
        assert(split_on(s, sep) == rest.update(0, seq![s[0]] + rest[0]));
        assert(split_on(s, sep) =~= seq![s]);
    }
}

/// Splitting at the first separator: the text before it is the first piece.
pub proof fn lemma_split_at_first_sep(a: Seq<char>, b: Seq<char>, sep: char)
    requires
        !a.contains(sep),
    ensures
        split_on(a + seq![sep] + b, sep) == seq![a] + split_on(b, sep),
    decreases a.len(),
{
    let s = a + seq![sep] + b;
    if a.len() == 0 {
        assert(a =~= Seq::<char>::empty());
        assert(s[0] == sep);
        assert(s.drop_first() =~= b);
        assert(split_on(s, sep) == seq![Seq::<char>::empty()] + split_on(b, sep));
        assert(split_on(s, sep) =~= seq![a] + split_on(b, sep));
    } else {
        let a1 = a.drop_first();
        assert(!a1.contains(sep)) by {
            if a1.contains(sep) {
                let k = choose|k: int| 0 <= k < a1.len() && a1[k] == sep;
                assert(a[k + 1] == sep);
            }
        }
        lemma_split_at_first_sep(a1, b, sep);
        assert(s.drop_first() =~= a1 + seq![sep] + b);
        assert(s[0] == a[0]);
        assert(a[0] != sep) by {
            if a[0] == sep {
                assert(a.contains(sep));
            }
        }
        assert(seq![a[0]] + a1 =~= a);
        let rest = split_on(s.drop_first(), sep);
        assert(rest == seq![a1] + split_on(b, sep));
        assert(split_on(s, sep) == rest.update(0, seq![s[0]] + rest[0]));
        assert(split_on(s, sep) =~= seq![a] + split_on(b, sep));
    }
}


/// Splitting at the last separator: the text after it is the last piece.
pub proof fn lemma_split_at_last_sep(a: Seq<char>, b: Seq<char>, sep: char)
    requires
        !b.contains(sep),
    ensures
        split_on(a + seq![sep] + b, sep) == split_on(a, sep).push(b),
    decreases a.len(),
{
    let s = a + seq![sep] + b;
    if a.len() == 0 {
        assert(a =~= Seq::<char>::empty());
        assert(s[0] == sep);
        assert(s.drop_first() =~= b);
        lemma_split_without_sep(b, sep);
        assert(split_on(s, sep) =~= split_on(a, sep).push(b));
    } else {
        let a1 = a.drop_first();
        lemma_split_at_last_sep(a1, b, sep);
        assert(s.drop_first() =~= a1 + seq![sep] + b);
        assert(s[0] == a[0]);
        lemma_split_on_nonempty(a1, sep);
        let rest = split_on(s.drop_first(), sep);
        assert(rest == split_on(a1, sep).push(b));
        if a[0] == sep {
            assert(split_on(s, sep) == seq![Seq::<char>::empty()] + rest);
            assert(split_on(a, sep) == seq![Seq::<char>::empty()] + split_on(a1, sep));
            assert(split_on(s, sep) =~= split_on(a, sep).push(b));
        } else {
            assert(split_on(s, sep) == rest.update(0, seq![s[0]] + rest[0]));
            assert(split_on(a, sep) == split_on(a1, sep).update(0, seq![a[0]] + split_on(a1, sep)[0]));
            assert(split_on(s, sep) =~= split_on(a, sep).push(b));
        }
    }
}

/// No piece of a split holds the separator.
pub proof fn lemma_split_pieces_without_sep(s: Seq<char>, sep: char)
    ensures
        forall|i: int| 0 <= i < split_on(s, sep).len() ==> !(#[trigger] split_on(s, sep)[i]).contains(sep),
    decreases s.len(),
{
    if s.len() > 0 {
        let rest = split_on(s.drop_first(), sep);
        lemma_split_pieces_without_sep(s.drop_first(), sep);
        lemma_split_on_nonempty(s.drop_first(), sep);
        if s[0] != sep {
            let first = seq![s[0]] + rest[0];
            assert(!first.contains(sep)) by {
                if first.contains(sep) {
                    let k = choose|k: int| 0 <= k < first.len() && first[k] == sep;
                    if k > 0 {
                        assert(rest[0][k - 1] == sep);
                    }
                }
            }
            assert forall|i: int| 0 <= i < split_on(s, sep).len() implies !(#[trigger] split_on(s, sep)[i]).contains(sep) by {
                if i > 0 {
                    assert(split_on(s, sep)[i] == rest[i]);
                }
            }
        } else {
            assert forall|i: int| 0 <= i < split_on(s, sep).len() implies !(#[trigger] split_on(s, sep)[i]).contains(sep) by {
                if i > 0 {
                    assert(split_on(s, sep)[i] == rest[i - 1]);
                } else {
                    assert(split_on(s, sep)[0] =~= Seq::<char>::empty());
                }
            }
        }
    }
}

} // verus!
