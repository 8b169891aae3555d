//! Entry names: relative, slash-separated paths that stay below the directory they are joined to.

use vstd::prelude::*;

verus! {

/// A character that no entry name may hold: it ends a name early, or means a separator or a
/// drive on some platform.
pub open spec fn is_reserved(c: char) -> bool {
    c == '\0' || c == '\\' || c == ':'
}

/// Whether a component of `s` begins at position `i`.
pub open spec fn starts_component(s: Seq<char>, i: int) -> bool {
    i == 0 || s[i - 1] == '/'
}

/// Whether a component of `s` ends just before position `i`.
pub open spec fn ends_component(s: Seq<char>, i: int) -> bool {
    i == s.len() || s[i] == '/'
}

/// Whether `s` breaks the rules of an entry name at position `i`: a reserved character, or the
/// start of a component that is empty, `.` or `..`.
pub open spec fn bad_at(s: Seq<char>, i: int) -> bool {
    ||| i < s.len() && is_reserved(s[i])
    ||| starts_component(s, i) && ends_component(s, i)
    ||| starts_component(s, i) && i < s.len() && s[i] == '.' && ends_component(s, i + 1)
    ||| starts_component(s, i) && i + 1 < s.len() && s[i] == '.' && s[i + 1] == '.'
        && ends_component(s, i + 2)
}

/// A valid entry name: not empty, free of reserved characters, made of components separated by
/// single slashes, none of them empty, `.` or `..`. Such a name is relative and cannot leave the
/// directory it is joined to.
pub open spec fn valid_name(s: Seq<char>) -> bool {
    s.len() > 0 && forall|i: int| 0 <= i <= s.len() ==> !#[trigger] bad_at(s, i)
}

/// The position of the first slash of `s` at or after `i`, or the length of `s` if there is none.
pub open spec fn separator_from(s: Seq<char>, i: int) -> int
    decreases s.len() - i,
{
    if i < 0 || i >= s.len() {
        s.len() as int
    } else if s[i] == '/' {
        i
    } else {
        separator_from(s, i + 1)
    }
}

/// The name without its first component and the slash behind it; `None` where the name has no
/// slash, so that nothing would be left.
pub open spec fn strip_top(s: Seq<char>) -> Option<Seq<char>> {
    let k = separator_from(s, 0);
    if k < s.len() {
        Some(s.subrange(k + 1, s.len() as int))
    } else {
        None
    }
}

/// Whether `s` ends with `suffix`.
pub open spec fn has_suffix(s: Seq<char>, suffix: Seq<char>) -> bool {
    s.len() >= suffix.len() && s.subrange(s.len() - suffix.len(), s.len() as int) == suffix
}

/// `s` without its last `n` characters.
pub open spec fn drop_suffix(s: Seq<char>, n: int) -> Seq<char> {
    s.subrange(0, s.len() - n)
}

/// Whether `s` begins with `prefix`.
pub open spec fn has_prefix(s: Seq<char>, prefix: Seq<char>) -> bool {
    s.len() >= prefix.len() && s.subrange(0, prefix.len() as int) == prefix
}

/// Whether the entry `name` lies below the directory `dir`: `dir`, a slash, and something more.
pub open spec fn lies_under(name: Seq<char>, dir: Seq<char>) -> bool {
    name.len() > dir.len() + 1 && has_prefix(name, dir) && name[dir.len() as int] == '/'
}

/// `dir` and `rest` joined by a slash.
pub open spec fn join(dir: Seq<char>, rest: Seq<char>) -> Seq<char> {
    dir + seq!['/'] + rest
}

/// The entry `name`, which lies below `from`, moved below `to`.
pub open spec fn reroot(name: Seq<char>, from: Seq<char>, to: Seq<char>) -> Seq<char> {
    join(to, name.subrange(from.len() + 1 as int, name.len() as int))
}

/// What lies behind a slash of a valid entry name is a valid entry name.
pub proof fn lemma_tail_valid(name: Seq<char>, k: int)
    requires
        valid_name(name),
        0 <= k < name.len(),
        name[k] == '/',
    ensures
        k + 1 < name.len(),
        valid_name(name.subrange(k + 1, name.len() as int)),
{
    assert(!bad_at(name, k + 1));
    let tail = name.subrange(k + 1, name.len() as int);
    assert forall|i: int| 0 <= i <= tail.len() implies !#[trigger] bad_at(tail, i) by {
        assert(!bad_at(name, k + 1 + i));
    }
}

/// Two valid entry names joined by a slash are a valid entry name.
pub proof fn lemma_join_valid(dir: Seq<char>, rest: Seq<char>)
    requires
        valid_name(dir),
        valid_name(rest),
    ensures
        valid_name(join(dir, rest)),
{
    let all = join(dir, rest);
    let n = dir.len() as int;
    assert(!bad_at(dir, n));
    assert forall|i: int| 0 <= i <= all.len() implies !#[trigger] bad_at(all, i) by {
        if i < n {
            assert(!bad_at(dir, i));
        } else if i > n {
            assert(!bad_at(rest, i - n - 1));
        }
    }
}

/// A name of one component is a valid entry name: one that is not empty, holds no slash and no
/// reserved character, and is neither `.` nor `..`.
pub proof fn lemma_component_valid(name: Seq<char>)
    requires
        name.len() > 0,
        forall|i: int| 0 <= i < name.len() ==> name[i] != '/' && !is_reserved(#[trigger] name[i]),
        name != seq!['.'],
        name != seq!['.', '.'],
    ensures
        valid_name(name),
{
    assert forall|i: int| 0 <= i <= name.len() implies !#[trigger] bad_at(name, i) by {
        if i == 0 && name[0] == '.' {
            if name.len() == 1 {
                assert(name =~= seq!['.']);
            } else if name.len() == 2 && name[1] == '.' {
                assert(name =~= seq!['.', '.']);
            }
        }
    }
}

/// The characters of a string.
pub fn chars_of(s: &str) -> (v: Vec<char>)
    ensures
        v@ == s@,
{
    let mut v: Vec<char> = Vec::new();
    for c in it: s.chars()
        invariant
            it.seq() == s@,
            v@ == s@.take(it.index() as int),
    {
        v.push(c);
    }
    v
}

/// Whether two strings hold the same text.
pub fn same_text(a: &str, b: &str) -> (r: bool)
    ensures
        r == (a@ == b@),
{
    let x = chars_of(a);
    let y = chars_of(b);
    same_chars(&x, &y)
}

/// Whether two slices hold the same characters.
pub fn same_chars(x: &[char], y: &[char]) -> (r: bool)
    ensures
        r == (x@ == y@),
{
    if x.len() != y.len() {
        return false;
    }
    let mut i: usize = 0;
    while i < x.len()
        invariant
            i <= x.len(),
            x.len() == y.len(),
            forall|j: int| 0 <= j < i ==> x@[j] == y@[j],
        decreases x.len() - i,
    {
        if x[i] != y[i] {
            return false;
        }
        i = i + 1;
    }
    assert(x@ =~= y@);
    true
}

/// Tells whether `s` is a valid entry name.
pub fn is_valid_name(s: &[char]) -> (r: bool)
    ensures
        r == valid_name(s@),
{
    let n = s.len();
    if n == 0 {
        return false;
    }
    let mut i: usize = 0;
    while i < n
        invariant
            i <= n,
            n == s.len(),
            n > 0,
            forall|j: int| 0 <= j < i ==> !#[trigger] bad_at(s@, j),
        decreases n - i,
    {
        let c = s[i];
        let starts = i == 0 || s[i - 1] == '/';
        if c == '\0' || c == '\\' || c == ':' {
            assert(bad_at(s@, i as int));
            return false;
        }
        if starts && c == '/' {
            assert(bad_at(s@, i as int));
            return false;
        }
        if starts && c == '.' {
            if i + 1 == n || s[i + 1] == '/' {
                assert(bad_at(s@, i as int));
                return false;
            }
            if s[i + 1] == '.' && (i + 2 == n || s[i + 2] == '/') {
                assert(bad_at(s@, i as int));
                return false;
            }
        }
        i = i + 1;
    }
    if s[n - 1] == '/' {
        assert(bad_at(s@, n as int));
        return false;
    }
    true
}

/// The position of the first slash of `s`, or its length if it has none.
pub fn first_separator(s: &[char]) -> (k: usize)
    ensures
        k == separator_from(s@, 0),
        k <= s.len(),
{
    let mut i: usize = 0;
    while i < s.len() && s[i] != '/'
        invariant
            i <= s.len(),
            separator_from(s@, 0) == separator_from(s@, i as int),
        decreases s.len() - i,
    {
        i = i + 1;
    }
    i
}

/// Tells whether `s` ends with `suffix`.
pub fn ends_with(s: &[char], suffix: &[char]) -> (r: bool)
    ensures
        r == has_suffix(s@, suffix@),
{
    if s.len() < suffix.len() {
        return false;
    }
    let start = s.len() - suffix.len();
    let mut i: usize = 0;
    while i < suffix.len()
        invariant
            i <= suffix.len(),
            start + suffix.len() == s.len(),
            forall|j: int| 0 <= j < i ==> s@[start + j] == suffix@[j],
        decreases suffix.len() - i,
    {
        if s[start + i] != suffix[i] {
            return false;
        }
        i = i + 1;
    }
    assert(s@.subrange(s.len() - suffix.len(), s.len() as int) =~= suffix@);
    true
}

/// Tells whether the entry `name` lies below the directory `dir`.
pub fn is_under(name: &[char], dir: &[char]) -> (r: bool)
    ensures
        r == lies_under(name@, dir@),
{
    if name.len() <= dir.len() || name.len() - dir.len() <= 1 {
        return false;
    }
    let mut i: usize = 0;
    while i < dir.len()
        invariant
            i <= dir.len(),
            dir.len() < name.len(),
            forall|j: int| 0 <= j < i ==> name@[j] == dir@[j],
        decreases dir.len() - i,
    {
        if name[i] != dir[i] {
            return false;
        }
        i = i + 1;
    }
    assert(name@.subrange(0, dir.len() as int) =~= dir@);
    name[dir.len()] == '/'
}

} // verus!
