//! Text as sequences of characters: the small operations the rest of the library is built on.

use vstd::prelude::*;

verus! {

/// Whether a character beyond ASCII counts as white space to `char::is_whitespace`.
pub uninterp spec fn is_wide_whitespace(c: char) -> bool;

/// Whether `c` counts as white space to `char::is_whitespace`: in ASCII these are the space
/// and the characters from tab to carriage return; beyond ASCII it is as Unicode says.
pub open spec fn is_whitespace(c: char) -> bool {
    if (c as int) < 128 {
        c == ' ' || 9 <= c as int <= 13
    } else {
        is_wide_whitespace(c)
    }
}

/// `String::push` appends one character.
pub assume_specification[ String::push ](s: &mut String, c: char)
    ensures
        final(s)@ == old(s)@.push(c),
;

/// `char::is_whitespace` tells whether a character has the Unicode property White_Space.
/// In ASCII that is the space and the characters U+0009 to U+000D; for the characters
/// beyond ASCII the property is given the name [`is_wide_whitespace`] and nothing more is
/// said of it.
pub assume_specification[ char::is_whitespace ](c: char) -> (b: bool)
    ensures
        b == (if (c as int) < 128 {
            c == ' ' || 9 <= c as int <= 13
        } else {
            is_wide_whitespace(c)
        }),
        b == is_whitespace(c),
;

/// The code point of `c`.
pub fn char_code(c: char) -> (n: u32)
    ensures
        n as int == c as int,
{
    c as u32
}

/// The characters of `s`, in order.
pub fn chars_of(s: &str) -> (v: Vec<char>)
    ensures
        v@ == s@,
{
    let mut v: Vec<char> = Vec::new();
    for c in it: s.chars()
        invariant
            it.seq() == s@,
            v@ == it.seq().take(it.index()),
    {
        v.push(c);
    }
    v
}

/// The string made of `v[from..to]`.
pub fn string_of_range(v: &Vec<char>, from: usize, to: usize) -> (s: String)
    requires
        from <= to <= v@.len(),
    ensures
        s@ == v@.subrange(from as int, to as int),
{
    let mut s = String::new();
    let mut i: usize = from;
    while i < to
        invariant
            from <= i <= to,
            to <= v@.len(),
            s@ == v@.subrange(from as int, i as int),
        decreases to - i,
    {
        s.push(v[i]);
        assert(v@.subrange(from as int, i as int).push(v@[i as int]) =~= v@.subrange(
            from as int,
            i as int + 1,
        ));
        i += 1;
    }
    s
}

/// The string made of the characters of `v`, in order.
pub fn string_of(v: &Vec<char>) -> (s: String)
    ensures
        s@ == v@,
{
    let s = string_of_range(v, 0, v.len());
    assert(v@.subrange(0, v@.len() as int) =~= v@);
    s
}

/// `a` followed by `b`.
pub fn join2(a: &str, b: &str) -> (s: String)
    ensures
        s@ == a@ + b@,
{
    let mut s = String::from_str(a);
    s.append(b);
    s
}

/// `a`, `b` and `c` in a row.
pub fn join3(a: &str, b: &str, c: &str) -> (s: String)
    ensures
        s@ == a@ + b@ + c@,
{
    let mut s = String::from_str(a);
    s.append(b);
    s.append(c);
    s
}

/// Whether two vectors hold the same characters.
pub fn same_chars(a: &Vec<char>, b: &Vec<char>) -> (same: bool)
    ensures
        same == (a@ == b@),
{
    if a.len() != b.len() {
        return false;
    }
    let mut i: usize = 0;
    while i < a.len()
        invariant
            i <= a.len(),
            a.len() == b.len(),
            a@.take(i as int) == b@.take(i as int),
        decreases a.len() - i,
    {
        if a[i] != b[i] {
            return false;
        }
        assert(a@.take(i as int + 1) =~= a@.take(i as int).push(a@[i as int]));
        assert(b@.take(i as int + 1) =~= b@.take(i as int).push(b@[i as int]));
        i += 1;
    }
    assert(a@.take(a@.len() as int) =~= a@);
    assert(b@.take(b@.len() as int) =~= b@);
    true
}

/// Whether two strings hold the same characters.
pub fn same_text(a: &str, b: &str) -> (same: bool)
    ensures
        same == (a@ == b@),
{
    let x = chars_of(a);
    let y = chars_of(b);
    same_chars(&x, &y)
}

/// `s` without the run of `c` at its front.
pub open spec fn without_leading(s: Seq<char>, c: char) -> Seq<char>
    decreases s.len(),
{
    if s.len() > 0 && s[0] == c {
        without_leading(s.drop_first(), c)
    } else {
        s
    }
}

/// `s` without the run of `c` at its end.
pub open spec fn without_trailing(s: Seq<char>, c: char) -> Seq<char>
    decreases s.len(),
{
    if s.len() > 0 && s.last() == c {
        without_trailing(s.drop_last(), c)
    } else {
        s
    }
}

/// How many times `c` stands at the front of `s`.
pub open spec fn leading_len(s: Seq<char>, c: char) -> nat
    decreases s.len(),
{
    if s.len() > 0 && s[0] == c {
        1 + leading_len(s.drop_first(), c)
    } else {
        0
    }
}

/// How many times `c` stands at the end of `s`.
pub open spec fn trailing_len(s: Seq<char>, c: char) -> nat
    decreases s.len(),
{
    if s.len() > 0 && s.last() == c {
        1 + trailing_len(s.drop_last(), c)
    } else {
        0
    }
}

/// Dropping the run of `c` at the front leaves the rest of the text as it is, and the rest
/// does not begin with `c`.
pub proof fn lemma_without_leading(s: Seq<char>, c: char)
    ensures
        leading_len(s, c) <= s.len(),
        without_leading(s, c) == s.skip(leading_len(s, c) as int),
        leading_len(s, c) < s.len() ==> s[leading_len(s, c) as int] != c,
    decreases s.len(),
{
    if s.len() > 0 && s[0] == c {
        let tail = s.drop_first();
        lemma_without_leading(tail, c);
        let n = leading_len(tail, c) as int;
        assert(tail.skip(n) =~= s.skip(n + 1));
        if n < tail.len() {
            assert(tail[n] == s[n + 1]);
        }
    } else {
        assert(s.skip(0) =~= s);
    }
}

/// Dropping the run of `c` at the end leaves the text before it as it is, and that does not
/// end in `c`.
pub proof fn lemma_without_trailing(s: Seq<char>, c: char)
    ensures
        trailing_len(s, c) <= s.len(),
        without_trailing(s, c) == s.take(s.len() - trailing_len(s, c)),
        trailing_len(s, c) < s.len() ==> s[s.len() - trailing_len(s, c) - 1] != c,
    decreases s.len(),
{
    if s.len() > 0 && s.last() == c {
        let front = s.drop_last();
        lemma_without_trailing(front, c);
        let n = trailing_len(front, c) as int;
        assert(front.take(front.len() - n) =~= s.take(s.len() - (n + 1)));
        if n < front.len() {
            assert(front[front.len() - n - 1] == s[s.len() - (n + 1) - 1]);
        }
    } else {
        assert(s.take(s.len() as int) =~= s);
    }
}

/// A text that neither begins nor ends with white space is its own trimmed form.
pub proof fn lemma_trimmed_is_stable(s: Seq<char>)
    requires
        s.len() == 0 || (!is_whitespace(s[0]) && !is_whitespace(s.last())),
    ensures
        trimmed(s) == s,
{
}

/// Number of leading characters of `v` equal to `c`.
pub fn leading_run(v: &Vec<char>, c: char) -> (n: usize)
    ensures
        n <= v@.len(),
        without_leading(v@, c) == v@.skip(n as int),
        forall|k: int| 0 <= k < n ==> v@[k] == c,
        n < v@.len() ==> v@[n as int] != c,
{
    let mut i: usize = 0;
    assert(v@.skip(0) =~= v@);
    while i < v.len() && v[i] == c
        invariant
            i <= v@.len(),
            without_leading(v@, c) == without_leading(v@.skip(i as int), c),
            forall|k: int| 0 <= k < i ==> v@[k] == c,
        decreases v@.len() - i,
    {
        assert(v@.skip(i as int).drop_first() =~= v@.skip(i as int + 1));
        i += 1;
    }
    i
}

/// Index just past the last character of `v` that differs from `c`.
pub fn trailing_cut(v: &Vec<char>, c: char) -> (n: usize)
    ensures
        n <= v@.len(),
        without_trailing(v@, c) == v@.take(n as int),
        forall|k: int| n <= k < v@.len() ==> v@[k] == c,
        n > 0 ==> v@[n - 1] != c,
{
    let mut i: usize = v.len();
    assert(v@.take(i as int) =~= v@);
    while i > 0 && v[i - 1] == c
        invariant
            i <= v@.len(),
            without_trailing(v@, c) == without_trailing(v@.take(i as int), c),
            forall|k: int| i <= k < v@.len() ==> v@[k] == c,
        decreases i,
    {
        assert(v@.take(i as int).drop_last() =~= v@.take(i as int - 1));
        i -= 1;
    }
    i
}

/// `s` without the run of `c` at its front.
pub fn trim_start_char(s: &str, c: char) -> (r: String)
    ensures
        r@ == without_leading(s@, c),
{
    let v = chars_of(s);
    let n = leading_run(&v, c);
    string_of_range(&v, n, v.len())
}

/// `s` without the run of `c` at its end.
pub fn trim_end_char(s: &str, c: char) -> (r: String)
    ensures
        r@ == without_trailing(s@, c),
{
    let v = chars_of(s);
    let n = trailing_cut(&v, c);
    string_of_range(&v, 0, n)
}

/// `s` without the white space at its front.
pub open spec fn without_leading_space(s: Seq<char>) -> Seq<char>
    decreases s.len(),
{
    if s.len() > 0 && is_whitespace(s[0]) {
        without_leading_space(s.drop_first())
    } else {
        s
    }
}

/// `s` without the white space at its end.
pub open spec fn without_trailing_space(s: Seq<char>) -> Seq<char>
    decreases s.len(),
{
    if s.len() > 0 && is_whitespace(s.last()) {
        without_trailing_space(s.drop_last())
    } else {
        s
    }
}

/// `s` without the white space at both ends.
pub open spec fn trimmed(s: Seq<char>) -> Seq<char> {
    without_trailing_space(without_leading_space(s))
}

/// The bounds of `v` without the white space at both ends: `v[from..to]` is the trimmed text.
pub fn trim_bounds(v: &Vec<char>) -> (bounds: (usize, usize))
    ensures
        bounds.0 <= bounds.1 <= v@.len(),
        trimmed(v@) == v@.subrange(bounds.0 as int, bounds.1 as int),
{
    let mut from: usize = 0;
    assert(v@.skip(0) =~= v@);
    while from < v.len() && v[from].is_whitespace()
        invariant
            from <= v@.len(),
            without_leading_space(v@) == without_leading_space(v@.skip(from as int)),
        decreases v@.len() - from,
    {
        assert(v@.skip(from as int).drop_first() =~= v@.skip(from as int + 1));
        from += 1;
    }
    let ghost rest = v@.skip(from as int);
    assert(without_leading_space(v@) == rest);
    let mut to: usize = v.len();
    assert(v@.subrange(from as int, to as int) =~= rest);
    while to > from && v[to - 1].is_whitespace()
        invariant
            from <= to <= v@.len(),
            rest == v@.skip(from as int),
            without_trailing_space(rest) == without_trailing_space(
                v@.subrange(from as int, to as int),
            ),
        decreases to,
    {
        assert(v@.subrange(from as int, to as int).drop_last() =~= v@.subrange(
            from as int,
            to as int - 1,
        ));
        to -= 1;
    }
    (from, to)
}

/// `s` without the white space at both ends.
pub fn trim(s: &str) -> (r: String)
    ensures
        r@ == trimmed(s@),
{
    let v = chars_of(s);
    let (from, to) = trim_bounds(&v);
    string_of_range(&v, from, to)
}

/// Whether `s` holds `c`.
pub open spec fn has_char(s: Seq<char>, c: char) -> bool {
    exists|i: int| 0 <= i < s.len() && s[i] == c
}

/// Index of the last `c` in `s`, or `-1` if `s` holds none.
pub open spec fn last_position(s: Seq<char>, c: char) -> int
    decreases s.len(),
{
    if s.len() == 0 {
        -1
    } else if s.last() == c {
        s.len() - 1
    } else {
        last_position(s.drop_last(), c)
    }
}

/// Index of the last `c` in `v`, if there is one.
pub fn last_index_of(v: &Vec<char>, c: char) -> (found: Option<usize>)
    ensures
        match found {
            Some(i) => i == last_position(v@, c) && i < v@.len() && v@[i as int] == c
                && forall|k: int| i < k < v@.len() ==> v@[k] != c,
            None => last_position(v@, c) == -1 && !has_char(v@, c),
        },
{
    let mut i: usize = v.len();
    assert(v@.take(i as int) =~= v@);
    while i > 0
        invariant
            i <= v@.len(),
            last_position(v@, c) == last_position(v@.take(i as int), c),
            forall|k: int| i <= k < v@.len() ==> v@[k] != c,
        decreases i,
    {
        if v[i - 1] == c {
            return Some(i - 1);
        }
        assert(v@.take(i as int).drop_last() =~= v@.take(i as int - 1));
        i -= 1;
    }
    None
}

/// Index of the first `c` in `v[from..]`, if there is one.
pub fn index_of_from(v: &Vec<char>, c: char, from: usize) -> (found: Option<usize>)
    requires
        from <= v@.len(),
    ensures
        match found {
            Some(i) => from <= i < v@.len() && v@[i as int] == c && forall|k: int|
                from <= k < i ==> v@[k] != c,
            None => forall|k: int| from <= k < v@.len() ==> v@[k] != c,
        },
{
    let mut i: usize = from;
    while i < v.len()
        invariant
            from <= i <= v@.len(),
            forall|k: int| from <= k < i ==> v@[k] != c,
        decreases v@.len() - i,
    {
        if v[i] == c {
            return Some(i);
        }
        i += 1;
    }
    None
}

/// Whether `needle` stands in `v` at index `at`.
pub open spec fn occurs_at(s: Seq<char>, needle: Seq<char>, at: int) -> bool {
    0 <= at && at + needle.len() <= s.len() && s.subrange(at, at + needle.len()) == needle
}

/// Whether `needle` stands somewhere in `s`.
pub open spec fn has_text(s: Seq<char>, needle: Seq<char>) -> bool {
    exists|at: int| occurs_at(s, needle, at)
}

/// Whether `needle` stands in `v` at index `at`.
pub fn matches_at(v: &Vec<char>, needle: &Vec<char>, at: usize) -> (b: bool)
    ensures
        b == occurs_at(v@, needle@, at as int),
{
    if needle.len() > v.len() || at > v.len() - needle.len() {
        return false;
    }
    let mut k: usize = 0;
    while k < needle.len()
        invariant
            k <= needle@.len(),
            at + needle@.len() <= v@.len() <= usize::MAX,
            v@.subrange(at as int, at + k) == needle@.take(k as int),
        decreases needle@.len() - k,
    {
        if v[at + k] != needle[k] {
            assert(v@.subrange(at as int, at + needle@.len())[k as int] != needle@[k as int]);
            return false;
        }
        assert(v@.subrange(at as int, at + k + 1) =~= v@.subrange(at as int, at + k).push(
            v@[at + k],
        ));
        assert(needle@.take(k as int + 1) =~= needle@.take(k as int).push(needle@[k as int]));
        k += 1;
    }
    assert(needle@.take(needle@.len() as int) =~= needle@);
    true
}

/// Whether `v` begins with `prefix`.
pub fn starts_with(v: &Vec<char>, prefix: &Vec<char>) -> (b: bool)
    ensures
        b == occurs_at(v@, prefix@, 0),
{
    matches_at(v, prefix, 0)
}

/// Whether `needle` stands somewhere in `v`.
pub fn contains_text(v: &Vec<char>, needle: &Vec<char>) -> (b: bool)
    ensures
        b == has_text(v@, needle@),
{
    let mut at: usize = 0;
    while at < v.len()
        invariant
            at <= v@.len(),
            forall|k: int| 0 <= k < at ==> !occurs_at(v@, needle@, k),
        decreases v@.len() - at,
    {
        if matches_at(v, needle, at) {
            return true;
        }
        at += 1;
    }
    matches_at(v, needle, at)
}

/// `c` in lower case if it is an ASCII capital, else `c`.
pub open spec fn ascii_lower(c: char) -> char {
    if 'A' as int <= c as int <= 'Z' as int {
        ((c as int + 32) as u8) as char
    } else {
        c
    }
}

/// `c` in upper case if it is an ASCII small letter, else `c`.
pub open spec fn ascii_upper(c: char) -> char {
    if 'a' as int <= c as int <= 'z' as int {
        ((c as int - 32) as u8) as char
    } else {
        c
    }
}

/// `c` in lower case if it is an ASCII capital, else `c`.
pub fn to_ascii_lower(c: char) -> (r: char)
    ensures
        r == ascii_lower(c),
{
    let n: u32 = c as u32;
    if 65 <= n && n <= 90 {
        ((n as u8) + 32) as char
    } else {
        c
    }
}

/// `c` in upper case if it is an ASCII small letter, else `c`.
pub fn to_ascii_upper(c: char) -> (r: char)
    ensures
        r == ascii_upper(c),
{
    let n: u32 = c as u32;
    if 97 <= n && n <= 122 {
        ((n as u8) - 32) as char
    } else {
        c
    }
}

/// `s` with every ASCII capital in lower case.
pub open spec fn lowered(s: Seq<char>) -> Seq<char> {
    s.map_values(|c: char| ascii_lower(c))
}

/// `v` with every ASCII capital in lower case.
pub fn to_lowered(v: &Vec<char>) -> (r: Vec<char>)
    ensures
        r@ == lowered(v@),
{
    let mut r: Vec<char> = Vec::new();
    let mut i: usize = 0;
    while i < v.len()
        invariant
            i <= v@.len(),
            r@ =~= lowered(v@).take(i as int),
        decreases v@.len() - i,
    {
        r.push(to_ascii_lower(v[i]));
        i += 1;
    }
    assert(lowered(v@).take(v@.len() as int) =~= lowered(v@));
    r
}

/// Whether `a` and `b` are the same up to the case of ASCII letters.
pub fn eq_ignore_ascii_case(a: &str, b: &str) -> (same: bool)
    ensures
        same == (lowered(a@) == lowered(b@)),
{
    let x = to_lowered(&chars_of(a));
    let y = to_lowered(&chars_of(b));
    same_chars(&x, &y)
}

/// Index of the first `c` in `s`, or `-1` if `s` holds none.
pub open spec fn first_position(s: Seq<char>, c: char) -> int
    decreases s.len(),
{
    if s.len() == 0 {
        -1
    } else if s[0] == c {
        0
    } else {
        let rest = first_position(s.drop_first(), c);
        if rest < 0 {
            -1
        } else {
            rest + 1
        }
    }
}

/// The first position of a character is where it stands with none before it.
pub proof fn lemma_first_position(s: Seq<char>, c: char, i: int)
    requires
        0 <= i <= s.len(),
        forall|k: int| 0 <= k < i ==> s[k] != c,
        i < s.len() ==> s[i] == c,
    ensures
        first_position(s, c) == if i < s.len() {
            i
        } else {
            -1
        },
    decreases s.len(),
{
    if s.len() > 0 && i > 0 {
        let rest = s.drop_first();
        assert forall|k: int| 0 <= k < i - 1 implies rest[k] != c by {
            assert(rest[k] == s[k + 1]);
        }
        if i < s.len() {
            assert(rest[i - 1] == s[i]);
        }
        lemma_first_position(rest, c, i - 1);
    }
}

/// Index of the first `c` in `v`, if there is one.
pub fn first_index_of(v: &Vec<char>, c: char) -> (found: Option<usize>)
    ensures
        match found {
            Some(i) => i == first_position(v@, c) && i < v@.len(),
            None => first_position(v@, c) == -1,
        },
{
    let found = index_of_from(v, c, 0);
    proof {
        match found {
            Some(i) => lemma_first_position(v@, c, i as int),
            None => lemma_first_position(v@, c, v@.len() as int),
        }
    }
    found
}

/// The stretches of `s` between the separators `sep` that are not empty, in order.
pub open spec fn segments(s: Seq<char>, sep: char) -> Seq<Seq<char>>
    decreases s.len(),
{
    if s.len() == 0 {
        Seq::empty()
    } else {
        let cut = first_position(s, sep);
        if cut < 0 || cut >= s.len() {
            seq![s]
        } else if cut == 0 {
            segments(s.drop_first(), sep)
        } else {
            seq![s.take(cut)] + segments(s.skip(cut + 1), sep)
        }
    }
}

/// The stretches of `s` between the separators `sep` that are not empty, in order.
pub fn split_segments(s: &str, sep: char) -> (parts: Vec<String>)
    ensures
        parts@.map_values(|p: String| p@) == segments(s@, sep),
{
    let v = chars_of(s);
    let mut parts: Vec<String> = Vec::new();
    let mut pos: usize = 0;
    assert(v@.skip(0) =~= v@);
    assert(parts@.map_values(|p: String| p@) =~= Seq::<Seq<char>>::empty());
    while pos < v.len()
        invariant
            pos <= v@.len(),
            segments(v@, sep) == parts@.map_values(|p: String| p@) + segments(
                v@.skip(pos as int),
                sep,
            ),
        decreases v@.len() - pos,
    {
        let ghost rest = v@.skip(pos as int);
        let ghost so_far = parts@.map_values(|p: String| p@);
        match index_of_from(&v, sep, pos) {
            Some(i) => {
                proof {
                    assert forall|k: int| 0 <= k < i - pos implies rest[k] != sep by {
                        assert(rest[k] == v@[pos + k]);
                    }
                    assert(rest[i - pos] == v@[i as int]);
                    lemma_first_position(rest, sep, i - pos);
                    assert(rest.take(i - pos) =~= v@.subrange(pos as int, i as int));
                    assert(rest.skip(i - pos + 1) =~= v@.skip(i as int + 1));
                    assert(rest.drop_first() =~= v@.skip(pos as int + 1));
                }
                if i > pos {
                    let piece = string_of_range(&v, pos, i);
                    parts.push(piece);
                    assert(parts@.map_values(|p: String| p@) =~= so_far.push(
                        v@.subrange(pos as int, i as int),
                    ));
                }
                pos = i + 1;
            },
            None => {
                proof {
                    assert forall|k: int| 0 <= k < rest.len() implies rest[k] != sep by {
                        assert(rest[k] == v@[pos + k]);
                    }
                    lemma_first_position(rest, sep, rest.len() as int);
                    assert(v@.subrange(pos as int, v@.len() as int) =~= rest);
                    assert(v@.skip(v@.len() as int) =~= Seq::<char>::empty());
                }
                let piece = string_of_range(&v, pos, v.len());
                parts.push(piece);
                assert(parts@.map_values(|p: String| p@) =~= so_far.push(rest));
                pos = v.len();
            },
        }
    }
    assert(v@.skip(pos as int) =~= Seq::<char>::empty());
    assert(segments(v@, sep) =~= parts@.map_values(|p: String| p@));
    parts
}

} // verus!
