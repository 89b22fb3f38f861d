//! Text helpers: decimal numbers, and file paths taken apart and put together.
//!
//! A path is a string whose components are separated by `/`. Its name is
//! what follows the last `/`, and its extension is what follows the last `.`
//! of the name, unless that dot is the name's first character.

use vstd::prelude::*;
use vstd::string::*;

verus! {

/// The character of a decimal digit.
pub open spec fn digit(d: nat) -> char {
    if d == 0 {
        '0'
    } else if d == 1 {
        '1'
    } else if d == 2 {
        '2'
    } else if d == 3 {
        '3'
    } else if d == 4 {
        '4'
    } else if d == 5 {
        '5'
    } else if d == 6 {
        '6'
    } else if d == 7 {
        '7'
    } else if d == 8 {
        '8'
    } else {
        '9'
    }
}

/// The decimal digits of `n`, most significant first, without leading zeros.
pub open spec fn decimal(n: nat) -> Seq<char>
    decreases n,
{
    if n < 10 {
        seq![digit(n)]
    } else {
        decimal(n / 10).push(digit(n % 10))
    }
}

fn digit_text(d: usize) -> (text: &'static str)
    requires
        d < 10,
    ensures
        text@ == seq![digit(d as nat)],
{
    proof {
        reveal_strlit("0");
        reveal_strlit("1");
        reveal_strlit("2");
        reveal_strlit("3");
        reveal_strlit("4");
        reveal_strlit("5");
        reveal_strlit("6");
        reveal_strlit("7");
        reveal_strlit("8");
        reveal_strlit("9");
    }
    let text = if d == 0 {
        "0"
    } else if d == 1 {
        "1"
    } else if d == 2 {
        "2"
    } else if d == 3 {
        "3"
    } else if d == 4 {
        "4"
    } else if d == 5 {
        "5"
    } else if d == 6 {
        "6"
    } else if d == 7 {
        "7"
    } else if d == 8 {
        "8"
    } else {
        "9"
    };
    text
}

/// Appends the decimal digits of `n` to `text`.
pub fn push_decimal(text: &mut String, n: usize)
    ensures
        final(text)@ == old(text)@ + decimal(n as nat),
    decreases n,
{
    if n >= 10 {
        push_decimal(text, n / 10);
    }
    text.append(digit_text(n % 10));
}

/// The index of the last `.` or `/` of `path`, or -1 where it has neither.
pub open spec fn last_mark(path: Seq<char>) -> int
    decreases path.len(),
{
    if path.len() == 0 {
        -1
    } else if path.last() == '.' || path.last() == '/' {
        path.len() - 1
    } else {
        last_mark(path.drop_last())
    }
}

/// `path` without the `/` at its end, however many there are. A path that is
/// one `/` and no more stays as it is.
pub open spec fn trimmed(path: Seq<char>) -> Seq<char>
    decreases path.len(),
{
    if path.len() > 1 && path.last() == '/' {
        trimmed(path.drop_last())
    } else {
        path
    }
}

/// Where the extension's dot stands in a path that ends in its name: the
/// last `.` of the name, unless the name begins with it.
pub open spec fn name_dot(path: Seq<char>) -> Option<int> {
    let mark = last_mark(path);
    if mark > 0 && path[mark] == '.' && path[mark - 1] != '/' {
        Some(mark)
    } else {
        None
    }
}

/// Where the extension's dot stands: the last `.` of the name, unless the
/// name begins with it. A `/` at the end of the path is not looked at.
pub open spec fn extension_dot(path: Seq<char>) -> Option<int> {
    name_dot(trimmed(path))
}

/// The extension of `path`, without its dot.
pub open spec fn extension(path: Seq<char>) -> Option<Seq<char>> {
    match extension_dot(path) {
        Some(dot) => Some(trimmed(path).subrange(dot + 1, trimmed(path).len() as int)),
        None => None,
    }
}

/// `path` without its extension and the dot before it, and without a `/` at
/// its end.
pub open spec fn stem(path: Seq<char>) -> Seq<char> {
    match extension_dot(path) {
        Some(dot) => trimmed(path).subrange(0, dot),
        None => trimmed(path),
    }
}

/// `path` with its extension replaced by `ext`, or with `ext` added where it
/// has none.
pub open spec fn with_extension(path: Seq<char>, ext: Seq<char>) -> Seq<char> {
    stem(path).push('.') + ext
}

/// `name` inside `folder`: the two with one `/` between them.
pub open spec fn joined(folder: Seq<char>, name: Seq<char>) -> Seq<char> {
    if folder.len() == 0 || folder.last() == '/' {
        folder + name
    } else {
        folder.push('/') + name
    }
}

/// The index of the last `/` of `path`, or -1 where it has none.
pub open spec fn last_slash(path: Seq<char>) -> int
    decreases path.len(),
{
    if path.len() == 0 {
        -1
    } else if path.last() == '/' {
        path.len() - 1
    } else {
        last_slash(path.drop_last())
    }
}

/// The last component of `path`: what follows its last `/`, where a `/` at
/// the end of the path is not looked at.
pub open spec fn leaf(path: Seq<char>) -> Seq<char> {
    trimmed(path).subrange(last_slash(trimmed(path)) + 1, trimmed(path).len() as int)
}

/// `text` has neither `.` nor `/`.
pub open spec fn plain(text: Seq<char>) -> bool {
    forall|i: int| 0 <= i < text.len() ==> text[i] != '.' && text[i] != '/'
}

/// `path` ends in a name: it is not empty and does not end in `/`.
pub open spec fn named(path: Seq<char>) -> bool {
    path.len() > 0 && path.last() != '/'
}

/// Plain text at the end of a path moves no mark.
pub proof fn lemma_last_mark_before_plain(path: Seq<char>, tail: Seq<char>)
    requires
        plain(tail),
    ensures
        last_mark(path + tail) == last_mark(path),
    decreases tail.len(),
{
    if tail.len() > 0 {
        assert((path + tail).drop_last() =~= path + tail.drop_last());
        lemma_last_mark_before_plain(path, tail.drop_last());
    }
}

/// What is left of a path without its extension ends in a name.
pub proof fn lemma_stem_is_named(path: Seq<char>)
    requires
        extension_dot(path) is Some || named(path),
    ensures
        named(stem(path)),
{
    lemma_last_mark_range(trimmed(path));
}

/// A path that was given a plain extension has that extension, and without
/// it is what the path was without its own.
pub proof fn lemma_with_extension_parts(path: Seq<char>, ext: Seq<char>)
    requires
        plain(ext),
        named(stem(path)),
    ensures
        extension(with_extension(path, ext)) == Some(ext),
        stem(with_extension(path, ext)) == stem(path),
{
    let base = stem(path);
    let whole = base.push('.') + ext;
    assert(whole.last() != '/') by {
        if ext.len() > 0 {
            assert(whole.last() == ext.last());
        }
    }
    assert(trimmed(whole) == whole);
    lemma_last_mark_before_plain(base.push('.'), ext);
    assert(whole.subrange(base.len() as int + 1, whole.len() as int) =~= ext);
    assert(whole.subrange(0, base.len() as int) =~= base);
}

proof fn lemma_last_mark_range(path: Seq<char>)
    ensures
        -1 <= last_mark(path) < path.len(),
    decreases path.len(),
{
    if path.len() > 0 && !(path.last() == '.' || path.last() == '/') {
        lemma_last_mark_range(path.drop_last());
    }
}

/// The dot of an extension lies inside the name.
pub proof fn lemma_name_dot_range(path: Seq<char>)
    ensures
        name_dot(path) matches Some(dot) ==> 0 < dot < path.len(),
{
    lemma_last_mark_range(path);
}

fn trim(path: &str) -> (kept: &str)
    ensures
        kept@ == trimmed(path@),
{
    let len: usize = path.unicode_len();
    let mut end: usize = len;
    assert(path@.take(len as int) == path@);
    while end > 1 && path.get_char(end - 1) == '/'
        invariant
            end <= len,
            len == path@.len(),
            trimmed(path@) == trimmed(path@.take(end as int)),
        decreases end,
    {
        assert(path@.take(end as int).drop_last() == path@.take(end - 1));
        end = end - 1;
    }
    path.substring_char(0, end)
}

fn find_name_dot(path: &str) -> (found: Option<usize>)
    ensures
        found matches Some(dot) ==> name_dot(path@) == Some(dot as int),
        found is None ==> name_dot(path@) is None,
{
    let len: usize = path.unicode_len();
    let mut at: usize = len;
    assert(path@.take(len as int) == path@);
    while at > 0
        invariant
            at <= len,
            len == path@.len(),
            last_mark(path@) == last_mark(path@.take(at as int)),
        decreases at,
    {
        let here = path.get_char(at - 1);
        if here == '.' || here == '/' {
            if here == '.' && at - 1 > 0 {
                let before = path.get_char(at - 2);
                if before != '/' {
                    return Some(at - 1);
                }
            }
            return None;
        }
        assert(path@.take(at as int).drop_last() == path@.take(at - 1));
        at = at - 1;
    }
    None
}

/// The extension of `path`, without its dot.
pub fn path_extension(path: &str) -> (ext: Option<String>)
    ensures
        ext matches Some(e) ==> extension(path@) == Some(e@),
        ext is None ==> extension(path@) is None,
{
    let kept = trim(path);
    match find_name_dot(kept) {
        Some(dot) => {
            proof {
                lemma_name_dot_range(kept@);
            }
            let len: usize = kept.unicode_len();
            Some(kept.substring_char(dot + 1, len).to_owned())
        },
        None => None,
    }
}

/// `path` without its extension and the dot before it.
pub fn path_stem(path: &str) -> (base: String)
    ensures
        base@ == stem(path@),
{
    let kept = trim(path);
    match find_name_dot(kept) {
        Some(dot) => {
            proof {
                lemma_name_dot_range(kept@);
            }
            kept.substring_char(0, dot).to_owned()
        },
        None => kept.to_owned(),
    }
}

/// `path` with its extension replaced by `ext`.
pub fn path_with_extension(path: &str, ext: &str) -> (renamed: String)
    ensures
        renamed@ == with_extension(path@, ext@),
{
    let mut renamed = path_stem(path);
    proof {
        reveal_strlit(".");
    }
    renamed.append(".");
    renamed.append(ext);
    renamed
}

/// `name` inside `folder`.
pub fn path_join(folder: &str, name: &str) -> (path: String)
    ensures
        path@ == joined(folder@, name@),
{
    let len: usize = folder.unicode_len();
    let mut path = folder.to_owned();
    if len > 0 && folder.get_char(len - 1) != '/' {
        proof {
            reveal_strlit("/");
        }
        path.append("/");
    }
    path.append(name);
    path
}

fn name_start(path: &str) -> (at: usize)
    ensures
        at == last_slash(path@) + 1,
        at <= path@.len(),
{
    let len: usize = path.unicode_len();
    let mut at: usize = len;
    assert(path@.take(len as int) == path@);
    while at > 0 && path.get_char(at - 1) != '/'
        invariant
            at <= len,
            len == path@.len(),
            last_slash(path@) == last_slash(path@.take(at as int)),
        decreases at,
    {
        assert(path@.take(at as int).drop_last() == path@.take(at - 1));
        at = at - 1;
    }
    at
}

/// The last component of `path`.
pub fn path_leaf(path: &str) -> (name: String)
    ensures
        name@ == leaf(path@),
{
    let kept = trim(path);
    let len: usize = kept.unicode_len();
    kept.substring_char(name_start(kept), len).to_owned()
}

/// Whether two texts hold the same characters.
pub fn same_text(a: &str, b: &str) -> (same: bool)
    ensures
        same == (a@ == b@),
{
    let len: usize = a.unicode_len();
    if len != b.unicode_len() {
        return false;
    }
    let mut at: usize = 0;
    while at < len
        invariant
            at <= len,
            len == a@.len(),
            len == b@.len(),
            forall|i: int| 0 <= i < at ==> a@[i] == b@[i],
        decreases len - at,
    {
        if a.get_char(at) != b.get_char(at) {
            return false;
        }
        at = at + 1;
    }
    assert(a@ =~= b@);
    true
}

/// The folder of `path`: what stands before the last `/` that is followed by
/// a name, or the root where that is the only one.
pub open spec fn parent(path: Seq<char>) -> Seq<char> {
    let kept = trimmed(path);
    let slash = last_slash(kept);
    if slash > 0 {
        kept.subrange(0, slash)
    } else if slash == 0 {
        kept.subrange(0, 1)
    } else {
        Seq::empty()
    }
}

/// The folder of `path`.
pub fn path_parent(path: &str) -> (folder: String)
    ensures
        folder@ == parent(path@),
{
    let kept = trim(path);
    let at: usize = name_start(kept);
    if at > 1 {
        kept.substring_char(0, at - 1).to_owned()
    } else if at == 1 {
        kept.substring_char(0, 1).to_owned()
    } else {
        String::new()
    }
}

/// `a` stands before `b` in the dictionary: at the first place where they
/// differ `a` has the lesser character, or `a` ends there and `b` goes on.
pub open spec fn precedes(a: Seq<char>, b: Seq<char>) -> bool
    decreases a.len(),
{
    if b.len() == 0 {
        false
    } else if a.len() == 0 {
        true
    } else if a[0] != b[0] {
        (a[0] as int) < (b[0] as int)
    } else {
        precedes(a.drop_first(), b.drop_first())
    }
}

/// Of two different texts one stands before the other.
pub proof fn lemma_precedes_either(a: Seq<char>, b: Seq<char>)
    ensures
        a == b || precedes(a, b) || precedes(b, a),
        !(precedes(a, b) && precedes(b, a)),
    decreases a.len(),
{
    if a.len() > 0 && b.len() > 0 && a[0] == b[0] {
        lemma_precedes_either(a.drop_first(), b.drop_first());
        if a.drop_first() == b.drop_first() {
            assert(b =~= seq![b[0]] + b.drop_first());
        }
    }
}

/// What stands before a text stands before all that the text stands before.
pub proof fn lemma_precedes_chain(a: Seq<char>, b: Seq<char>, c: Seq<char>)
    requires
        precedes(a, b),
        precedes(b, c),
    ensures
        precedes(a, c),
    decreases a.len(),
{
    if a.len() > 0 && a[0] == b[0] && b[0] == c[0] {
        lemma_precedes_chain(a.drop_first(), b.drop_first(), c.drop_first());
    }
}

/// Whether `a` stands before `b` in the dictionary.
pub fn text_precedes(a: &str, b: &str) -> (before: bool)
    ensures
        before == precedes(a@, b@),
{
    let a_len: usize = a.unicode_len();
    let b_len: usize = b.unicode_len();
    let mut at: usize = 0;
    assert(a@.skip(0) =~= a@);
    assert(b@.skip(0) =~= b@);
    while at < a_len && at < b_len
        invariant
            at <= a_len,
            at <= b_len,
            a_len == a@.len(),
            b_len == b@.len(),
            precedes(a@, b@) == precedes(a@.skip(at as int), b@.skip(at as int)),
        decreases a_len - at,
    {
        let x = a.get_char(at);
        let y = b.get_char(at);
        proof {
            assert(a@.skip(at as int).drop_first() =~= a@.skip(at + 1));
            assert(b@.skip(at as int).drop_first() =~= b@.skip(at + 1));
        }
        if x != y {
            return x < y;
        }
        at = at + 1;
    }
    at < b_len
}

} // verus!
