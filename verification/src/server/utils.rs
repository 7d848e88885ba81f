//! Names and paths that come in from outside, made safe.

use crate::cleanup::texts;
use crate::paths::{
    components_of, extension_of, file_name_of, join_paths, part_views, path_begins_with,
    path_extension, path_file_name, path_join, path_parts, path_starts_with, PartView, PathPart,
};
use crate::text::{
    char_code, chars_of, leading_run, lowered, string_of, string_of_range, to_lowered, trim_bounds,
    trim_start_char, trimmed, without_leading, without_trailing,
};
use vstd::prelude::*;

verus! {

/// Whether a list of names holds `name`.
pub fn holds(names: &Vec<String>, name: &str) -> (found: bool)
    ensures
        found == texts(names@).contains(name@),
{
    let wanted = String::from_str(name);
    let mut i: usize = 0;
    while i < names.len()
        invariant
            i <= names@.len(),
            wanted@ == name@,
            forall|k: int| 0 <= k < i ==> texts(names@)[k] != name@,
        decreases names@.len() - i,
    {
        if names[i] == wanted {
            assert(texts(names@)[i as int] == name@);
            return true;
        }
        i += 1;
    }
    false
}

/// Whether the extension of `filename`, in lower case, is among the allowed ones.
pub open spec fn allowed_file(filename: Seq<char>, allowed: Seq<Seq<char>>) -> bool {
    match path_extension(filename) {
        Some(extension) => allowed.contains(lowered(extension)),
        None => false,
    }
}

/// Whether the extension of `filename` is among the allowed ones. A name without an
/// extension is not allowed.
pub fn is_allowed_file(filename: &str, allowed_extensions: &Vec<String>) -> (allowed: bool)
    ensures
        allowed == allowed_file(filename@, texts(allowed_extensions@)),
{
    match extension_of(filename) {
        Some(extension) => {
            let lower = string_of(&to_lowered(&chars_of(extension.as_str())));
            holds(allowed_extensions, lower.as_str())
        },
        None => false,
    }
}

/// What becomes of one character of a file name: ASCII letters and digits, `-`, `_` and
/// `.` stay, a space becomes `_`, and everything else is dropped.
pub open spec fn safe_char(c: char) -> Option<char> {
    let code = c as int;
    if ('a' as int <= code <= 'z' as int) || ('A' as int <= code <= 'Z' as int) || ('0' as int
        <= code <= '9' as int) || c == '-' || c == '_' || c == '.' {
        Some(c)
    } else if c == ' ' {
        Some('_')
    } else {
        None
    }
}

/// A name with every character made safe or dropped.
pub open spec fn safe_chars(name: Seq<char>) -> Seq<char>
    decreases name.len(),
{
    if name.len() == 0 {
        Seq::empty()
    } else {
        match safe_char(name.last()) {
            Some(c) => safe_chars(name.drop_last()).push(c),
            None => safe_chars(name.drop_last()),
        }
    }
}

/// The safe form of a file name: without the white space around it, every character made
/// safe or dropped, and without dots at either end. `None` where nothing is left.
pub open spec fn secure_name(name: Seq<char>) -> Option<Seq<char>> {
    let cleaned = without_trailing(without_leading(safe_chars(trimmed(name)), '.'), '.');
    if trimmed(name).len() == 0 || cleaned.len() == 0 {
        None
    } else {
        Some(cleaned)
    }
}

/// Whether a character is one that a safe file name is made of: an ASCII letter or digit,
/// `-`, `_` or `.`.
pub open spec fn is_safe(c: char) -> bool {
    let code = c as int;
    ('a' as int <= code <= 'z' as int) || ('A' as int <= code <= 'Z' as int) || ('0' as int
        <= code <= '9' as int) || c == '-' || c == '_' || c == '.'
}

/// Whether a text is made of safe characters only.
pub open spec fn all_safe(s: Seq<char>) -> bool {
    forall|i: int| 0 <= i < s.len() ==> is_safe(#[trigger] s[i])
}

proof fn lemma_safe_chars_are_safe(name: Seq<char>)
    ensures
        all_safe(safe_chars(name)),
    decreases name.len(),
{
    if name.len() > 0 {
        lemma_safe_chars_are_safe(name.drop_last());
        let before = safe_chars(name.drop_last());
        match safe_char(name.last()) {
            Some(c) => {
                let now = safe_chars(name);
                assert(now == before.push(c));
                assert(is_safe(c));
                assert forall|i: int| 0 <= i < now.len() implies is_safe(#[trigger] now[i]) by {
                    if i < before.len() {
                        assert(now[i] == before[i]);
                    }
                }
            },
            None => {},
        }
    }
}

proof fn lemma_safe_chars_of_safe(s: Seq<char>)
    requires
        all_safe(s),
    ensures
        safe_chars(s) == s,
    decreases s.len(),
{
    if s.len() > 0 {
        let front = s.drop_last();
        assert forall|i: int| 0 <= i < front.len() implies is_safe(#[trigger] front[i]) by {
            assert(front[i] == s[i]);
        }
        lemma_safe_chars_of_safe(front);
        assert(is_safe(s[s.len() - 1]));
        assert(safe_char(s.last()) == Some(s.last()));
        assert(front.push(s.last()) =~= s);
    } else {
        assert(safe_chars(s) =~= s);
    }
}

/// A safe file name is not empty, is made of ASCII letters and digits, `-`, `_` and `.`
/// only, and has no dot at either end; so it holds no path separator and is not `..`.
pub proof fn lemma_secure_name_shape(name: Seq<char>)
    ensures
        secure_name(name) matches Some(s) ==> s.len() > 0 && all_safe(s) && s[0] != '.'
            && s.last() != '.',
{
    let kept = safe_chars(trimmed(name));
    lemma_safe_chars_are_safe(trimmed(name));
    let inner = without_leading(kept, '.');
    crate::text::lemma_without_leading(kept, '.');
    let k = crate::text::leading_len(kept, '.') as int;
    let cleaned = without_trailing(inner, '.');
    crate::text::lemma_without_trailing(inner, '.');
    let m = inner.len() - crate::text::trailing_len(inner, '.');
    if cleaned.len() > 0 {
        assert forall|i: int| 0 <= i < cleaned.len() implies is_safe(#[trigger] cleaned[i]) by {
            assert(cleaned[i] == inner[i]);
            assert(inner[i] == kept[k + i]);
        }
        assert(cleaned[0] == inner[0]);
        assert(inner[0] == kept[k]);
        assert(cleaned.last() == inner[m - 1]);
    }
}

/// A safe file name is its own safe form: given again, it comes back unchanged.
pub proof fn lemma_secure_name_is_stable(name: Seq<char>)
    ensures
        secure_name(name) matches Some(s) ==> secure_name(s) == Some(s),
{
    match secure_name(name) {
        Some(s) => {
            lemma_secure_name_shape(name);
            assert(is_safe(s[0]) && is_safe(s[s.len() - 1]));
            crate::text::lemma_trimmed_is_stable(s);
            lemma_safe_chars_of_safe(s);
            assert(without_leading(s, '.') == s);
            assert(without_trailing(s, '.') == s);
        },
        None => {},
    }
}

fn make_safe(c: char) -> (kept: Option<char>)
    ensures
        kept == safe_char(c),
{
    let code = char_code(c);
    if (97 <= code && code <= 122) || (65 <= code && code <= 90) || (48 <= code && code <= 57)
        || c == '-' || c == '_' || c == '.' {
        Some(c)
    } else if c == ' ' {
        Some('_')
    } else {
        None
    }
}

/// The safe form of a file name, if anything is left of it. What comes back is made of
/// safe characters only, has no dot at either end, and is its own safe form.
pub fn secure_filename(name: &str) -> (safe: Option<String>)
    ensures
        match safe {
            Some(s) => secure_name(name@) == Some(s@) && s@.len() > 0 && all_safe(s@) && s@[0]
                != '.' && s@.last() != '.' && secure_name(s@) == Some(s@),
            None => secure_name(name@) is None,
        },
{
    proof {
        lemma_secure_name_shape(name@);
        lemma_secure_name_is_stable(name@);
    }
    let v = chars_of(name);
    let (from, to) = trim_bounds(&v);
    if from == to {
        return None;
    }
    let ghost inner = v@.subrange(from as int, to as int);
    let mut kept: Vec<char> = Vec::new();
    let mut i: usize = from;
    assert(inner.take(0) =~= Seq::<char>::empty());
    while i < to
        invariant
            from <= i <= to,
            to <= v@.len(),
            inner == v@.subrange(from as int, to as int),
            kept@ == safe_chars(inner.take(i - from)),
        decreases to - i,
    {
        proof {
            let next = inner.take(i - from + 1);
            assert(next.drop_last() =~= inner.take(i - from));
            assert(next.last() == v@[i as int]);
        }
        match make_safe(v[i]) {
            Some(c) => {
                kept.push(c);
            },
            None => {},
        }
        i += 1;
    }
    assert(inner.take(to - from) =~= inner);
    let first = leading_run(&kept, '.');
    let mut last: usize = kept.len();
    // Dots at the end of what follows the leading dots.
    assert(kept@.subrange(first as int, last as int) =~= kept@.skip(first as int));
    while last > first && kept[last - 1] == '.'
        invariant
            first <= last <= kept@.len(),
            without_trailing(kept@.skip(first as int), '.') == without_trailing(
                kept@.subrange(first as int, last as int),
                '.',
            ),
        decreases last,
    {
        assert(kept@.subrange(first as int, last as int).drop_last() =~= kept@.subrange(
            first as int,
            last as int - 1,
        ));
        last -= 1;
    }
    if first == last {
        None
    } else {
        Some(string_of_range(&kept, first, last))
    }
}

/// The names that are left of the components of a path once every `..` has taken back the
/// name before it, starting from the names in `stack`. `None` where a `..` finds no name to
/// take back, and where a root or a prefix stands among the components.
pub open spec fn climbed(parts: Seq<PartView>, stack: Seq<Seq<char>>) -> Option<Seq<Seq<char>>>
    decreases parts.len(),
{
    if parts.len() == 0 {
        Some(stack)
    } else {
        match parts[0] {
            PartView::CurDir => climbed(parts.drop_first(), stack),
            PartView::Normal(name) => climbed(parts.drop_first(), stack.push(name)),
            PartView::ParentDir => if stack.len() == 0 {
                None
            } else {
                climbed(parts.drop_first(), stack.drop_last())
            },
            PartView::RootDir => None,
            PartView::Prefix => None,
        }
    }
}

/// `root` with the names joined to it one after the other.
pub open spec fn joined(root: Seq<char>, names: Seq<Seq<char>>) -> Seq<char>
    decreases names.len(),
{
    if names.len() == 0 {
        root
    } else {
        path_join(joined(root, names.drop_last()), names.last())
    }
}

/// The path below `root` that a requested path points at: the request without its leading
/// slashes, read component by component. `None` for a request that would leave the root.
pub open spec fn resolved(root: Seq<char>, requested: Seq<char>) -> Option<Seq<char>> {
    match climbed(path_parts(without_leading(requested, '/')), Seq::empty()) {
        Some(names) => Some(joined(root, names)),
        None => None,
    }
}

/// The path below `root` that `requested_path` points at, if it stays below the root.
pub fn resolve_within_root(root: &str, requested_path: &str) -> (path: Option<String>)
    ensures
        match path {
            Some(p) => resolved(root@, requested_path@) == Some(p@),
            None => resolved(root@, requested_path@) is None,
        },
{
    let sanitized = trim_start_char(requested_path, '/');
    let parts = components_of(sanitized.as_str());
    let ghost views = part_views(parts@);
    let mut stack: Vec<String> = Vec::new();
    let mut i: usize = 0;
    assert(views.skip(0) =~= views);
    assert(texts(stack@) =~= Seq::<Seq<char>>::empty());
    while i < parts.len()
        invariant
            i <= parts@.len(),
            views == part_views(parts@),
            views == path_parts(without_leading(requested_path@, '/')),
            climbed(views, Seq::empty()) == climbed(views.skip(i as int), texts(stack@)),
        decreases parts@.len() - i,
    {
        proof {
            assert(views.skip(i as int)[0] == parts@[i as int]@);
            assert(views.skip(i as int).drop_first() =~= views.skip(i as int + 1));
        }
        let ghost before = texts(stack@);
        match &parts[i] {
            PathPart::CurDir => {},
            PathPart::Normal(name) => {
                stack.push(name.clone());
                assert(texts(stack@) =~= before.push(name@));
            },
            PathPart::ParentDir => {
                if stack.len() == 0 {
                    return None;
                }
                stack.pop();
                assert(texts(stack@) =~= before.drop_last());
            },
            PathPart::RootDir => {
                return None;
            },
            PathPart::Prefix => {
                return None;
            },
        }
        i += 1;
    }
    let mut candidate = String::from_str(root);
    let mut k: usize = 0;
    assert(texts(stack@).take(0) =~= Seq::<Seq<char>>::empty());
    while k < stack.len()
        invariant
            k <= stack@.len(),
            candidate@ == joined(root@, texts(stack@).take(k as int)),
        decreases stack@.len() - k,
    {
        proof {
            let next = texts(stack@).take(k as int + 1);
            assert(next.drop_last() =~= texts(stack@).take(k as int));
            assert(next.last() == stack@[k as int]@);
        }
        candidate = join_paths(candidate.as_str(), stack[k].as_str());
        k += 1;
    }
    assert(texts(stack@).take(k as int) =~= texts(stack@));
    Some(candidate)
}

/// A request stays below the root exactly when none of its `..` goes above it: what is
/// joined to the root are names of the request, never a `..`, a root or a prefix.
pub proof fn lemma_climbed_names(parts: Seq<PartView>, stack: Seq<Seq<char>>)
    ensures
        match climbed(parts, stack) {
            Some(names) => names.len() <= stack.len() + parts.len() && forall|i: int|
                0 <= i < names.len() ==> stack.contains(#[trigger] names[i]) || parts.contains(
                    PartView::Normal(names[i]),
                ),
            None => true,
        },
    decreases parts.len(),
{
    if parts.len() > 0 {
        let rest = parts.drop_first();
        let next = match parts[0] {
            PartView::CurDir => stack,
            PartView::Normal(name) => stack.push(name),
            PartView::ParentDir => stack.drop_last(),
            _ => stack,
        };
        lemma_climbed_names(rest, next);
        match climbed(parts, stack) {
            Some(names) => {
                assert forall|i: int| 0 <= i < names.len() implies stack.contains(
                    #[trigger] names[i],
                ) || parts.contains(PartView::Normal(names[i])) by {
                    if next.contains(names[i]) {
                        let j = choose|j: int| 0 <= j < next.len() && next[j] == names[i];
                        match parts[0] {
                            PartView::Normal(name) => {
                                if j < stack.len() {
                                    assert(stack[j] == names[i]);
                                } else {
                                    assert(parts[0] == PartView::Normal(names[i]));
                                }
                            },
                            PartView::ParentDir => {
                                assert(stack[j] == names[i]);
                            },
                            _ => {},
                        }
                    } else {
                        let j = choose|j: int|
                            0 <= j < rest.len() && rest[j] == PartView::Normal(names[i]);
                        assert(parts[j + 1] == PartView::Normal(names[i]));
                    }
                }
            },
            None => {},
        }
    }
}

/// Whether a path is hidden by a blacklist: its final component is on the list, or it lies
/// in or at a listed path below the root.
pub open spec fn blacklisted(full_path: Seq<char>, root: Seq<char>, list: Seq<Seq<char>>) -> bool {
    ||| (path_file_name(full_path) is Some && list.contains(path_file_name(full_path)->0))
    ||| exists|i: int|
        0 <= i < list.len() && path_starts_with(full_path, path_join(root, #[trigger] list[i]))
}

/// Whether a path is hidden by a blacklist.
pub fn is_blacklisted(full_path: &str, root: &str, blacklisted_names: &Vec<String>) -> (hidden:
    bool)
    ensures
        hidden == blacklisted(full_path@, root@, texts(blacklisted_names@)),
{
    match file_name_of(full_path) {
        Some(name) => {
            if holds(blacklisted_names, name.as_str()) {
                return true;
            }
        },
        None => {},
    }
    let ghost list = texts(blacklisted_names@);
    let mut i: usize = 0;
    while i < blacklisted_names.len()
        invariant
            i <= blacklisted_names@.len(),
            list == texts(blacklisted_names@),
            forall|k: int|
                0 <= k < i ==> !path_starts_with(full_path@, path_join(root@, #[trigger] list[k])),
        decreases blacklisted_names@.len() - i,
    {
        let blocked = join_paths(root, blacklisted_names[i].as_str());
        if path_begins_with(full_path, blocked.as_str()) {
            assert(path_starts_with(full_path@, path_join(root@, list[i as int])));
            return true;
        }
        i += 1;
    }
    false
}

/// The digit that stands for `n` in hexadecimal, in upper case, for `n` below sixteen.
pub open spec fn hex_digit(n: int) -> char {
    if n < 10 {
        (('0' as int + n) as u8) as char
    } else {
        (('A' as int + n - 10) as u8) as char
    }
}

/// Whether a byte of a link is written as an escape: control characters, everything beyond
/// ASCII, and the space, `"`, `#`, `<`, `>`, `?` and the backtick.
pub open spec fn is_escaped(byte: u8) -> bool {
    byte < 0x20 || byte >= 0x7f || byte == 0x20 || byte == 0x22 || byte == 0x23 || byte == 0x3c
        || byte == 0x3e || byte == 0x3f || byte == 0x60
}

/// One byte of a link: itself, or `%` and its two hexadecimal digits.
pub open spec fn link_byte(byte: u8) -> Seq<char> {
    if is_escaped(byte) {
        seq!['%', hex_digit(byte as int / 16), hex_digit(byte as int % 16)]
    } else {
        seq![byte as char]
    }
}

/// The bytes of a link, each written as itself or as an escape.
pub open spec fn link_bytes(bytes: Seq<u8>) -> Seq<char>
    decreases bytes.len(),
{
    if bytes.len() == 0 {
        Seq::empty()
    } else {
        link_bytes(bytes.drop_last()) + link_byte(bytes.last())
    }
}

/// The link to a path: the bytes of its UTF-8 form, escaped where needed, behind a `/`
/// unless the path begins with one.
pub open spec fn link_of(path: Seq<char>) -> Seq<char> {
    let encoded = link_bytes(vstd::utf8::encode_utf8(path));
    if path.len() > 0 && path[0] == '/' {
        encoded
    } else {
        seq!['/'] + encoded
    }
}

fn hex(n: u8) -> (digit: char)
    requires
        n < 16,
    ensures
        digit == hex_digit(n as int),
{
    if n < 10 {
        (48u8 + n) as char
    } else {
        (55u8 + n) as char
    }
}

/// The link to a path, percent-encoded.
pub fn encode_link(path: &str) -> (link: String)
    ensures
        link@ == link_of(path@),
{
    let bytes = path.as_bytes_vec();
    let v = chars_of(path);
    let mut out: Vec<char> = Vec::new();
    if !(v.len() > 0 && v[0] == '/') {
        out.push('/');
    }
    let ghost head = out@;
    let mut i: usize = 0;
    assert(bytes@.take(0) =~= Seq::<u8>::empty());
    assert(out@ =~= head + link_bytes(bytes@.take(0)));
    while i < bytes.len()
        invariant
            i <= bytes@.len(),
            out@ == head + link_bytes(bytes@.take(i as int)),
        decreases bytes@.len() - i,
    {
        let byte = bytes[i];
        let ghost before = out@;
        proof {
            let next = bytes@.take(i as int + 1);
            assert(next.drop_last() =~= bytes@.take(i as int));
            assert(next.last() == byte);
        }
        if byte < 0x20 || byte >= 0x7f || byte == 0x20 || byte == 0x22 || byte == 0x23 || byte
            == 0x3c || byte == 0x3e || byte == 0x3f || byte == 0x60 {
            out.push('%');
            out.push(hex(byte / 16));
            out.push(hex(byte % 16));
            assert(out@ =~= before + link_byte(byte));
        } else {
            out.push(byte as char);
            assert(out@ =~= before + link_byte(byte));
        }
        assert(out@ =~= head + link_bytes(bytes@.take(i as int + 1)));
        i += 1;
    }
    assert(bytes@.take(i as int) =~= bytes@);
    string_of(&out)
}

} // verus!
