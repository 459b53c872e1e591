//! Names and path strings: resource names to storage paths, path lists, joins.
use vstd::prelude::*;

verus! {

/// Separates the directories of a storage path.
pub const FILE_SEPARATOR: char = '/';

/// Separates the entries of a path list.
pub const PATH_LIST_SEPARATOR: char = ':';

/// Marks a directory whose archives are each a source.
pub const WILDCARD: char = '*';

/// The suffix of a compiled-class resource.
pub open spec fn class_suffix() -> Seq<char> {
    seq!['.', 'c', 'l', 'a', 's', 's']
}

/// The suffix of an archive file.
pub open spec fn archive_suffix() -> Seq<char> {
    seq!['.', 'j', 'a', 'r']
}

/// The dots of a resource name turned into file separators.
pub open spec fn dots_to_separators(name: Seq<char>) -> Seq<char> {
    name.map_values(|c: char| if c == '.' { FILE_SEPARATOR } else { c })
}

/// The storage-relative path of the resource named `name`.
pub open spec fn spec_class_to_path(name: Seq<char>) -> Seq<char> {
    dots_to_separators(name) + class_suffix()
}

/// `path` inside the directory `dir`, with one file separator between them.
pub open spec fn spec_join_path(dir: Seq<char>, path: Seq<char>) -> Seq<char> {
    if dir.len() > 0 && dir.last() == FILE_SEPARATOR {
        dir + path
    } else {
        dir.push(FILE_SEPARATOR) + path
    }
}

/// The pieces of `parts` written one after another with `sep` between each two.
pub open spec fn joined(parts: Seq<Seq<char>>, sep: char) -> Seq<char>
    decreases parts.len(),
{
    if parts.len() == 0 {
        Seq::empty()
    } else if parts.len() == 1 {
        parts[0]
    } else {
        joined(parts.drop_last(), sep).push(sep) + parts.last()
    }
}

/// The views of a sequence of strings.
pub open spec fn views(v: Seq<String>) -> Seq<Seq<char>> {
    v.map_values(|s: String| s@)
}

/// Whether `c` has the Unicode White_Space property.
pub open spec fn is_white_space(c: char) -> bool {
    let u = c as u32;
    (0x9 <= u <= 0xd) || u == 0x20 || u == 0x85 || u == 0xa0 || u == 0x1680 || (0x2000 <= u
        <= 0x200a) || u == 0x2028 || u == 0x2029 || u == 0x202f || u == 0x205f || u == 0x3000
}

/// `s` without the white space at its front.
pub open spec fn trim_start_of(s: Seq<char>) -> Seq<char>
    decreases s.len(),
{
    if s.len() > 0 && is_white_space(s[0]) {
        trim_start_of(s.drop_first())
    } else {
        s
    }
}

/// `s` without the white space at its end.
pub open spec fn trim_end_of(s: Seq<char>) -> Seq<char>
    decreases s.len(),
{
    if s.len() > 0 && is_white_space(s.last()) {
        trim_end_of(s.drop_last())
    } else {
        s
    }
}

/// `s` without the white space at either end.
pub open spec fn trimmed(s: Seq<char>) -> Seq<char> {
    trim_end_of(trim_start_of(s))
}

/// Whether `s` ends with `suffix`.
pub open spec fn ends_with(s: Seq<char>, suffix: Seq<char>) -> bool {
    s.len() >= suffix.len() && s.subrange(s.len() - suffix.len(), s.len() as int) == suffix
}

/// Whether `s` holds the character `c`.
pub fn has_char(s: &str, c: char) -> (r: bool)
    ensures
        r == s@.contains(c),
{
    let n = s.unicode_len();
    let mut i: usize = 0;
    while i < n
        invariant
            n == s@.len(),
            i <= n,
            forall|j: int| 0 <= j < i ==> s@[j] != c,
        decreases n - i,
    {
        if s.get_char(i) == c {
            return true;
        }
        i = i + 1;
    }
    false
}

/// Whether `a` and `b` hold the same characters.
pub fn str_equal(a: &str, b: &str) -> (r: bool)
    ensures
        r == (a@ == b@),
{
    let n = a.unicode_len();
    if n != b.unicode_len() {
        return false;
    }
    let mut i: usize = 0;
    while i < n
        invariant
            n == a@.len(),
            n == b@.len(),
            i <= n,
            forall|j: int| 0 <= j < i ==> a@[j] == b@[j],
        decreases n - i,
    {
        if a.get_char(i) != b.get_char(i) {
            return false;
        }
        i = i + 1;
    }
    assert(a@ =~= b@);
    true
}

/// Whether `s` ends with `suffix`.
pub fn str_ends_with(s: &str, suffix: &str) -> (r: bool)
    ensures
        r == ends_with(s@, suffix@),
{
    let n = s.unicode_len();
    let m = suffix.unicode_len();
    if m > n {
        return false;
    }
    let mut i: usize = 0;
    while i < m
        invariant
            n == s@.len(),
            m == suffix@.len(),
            m <= n,
            i <= m,
            forall|j: int| 0 <= j < i ==> s@[n - m + j] == suffix@[j],
        decreases m - i,
    {
        if s.get_char(n - m + i) != suffix.get_char(i) {
            assert(s@.subrange(n - m, n as int)[i as int] != suffix@[i as int]);
            return false;
        }
        i = i + 1;
    }
    assert(s@.subrange(n - m, n as int) =~= suffix@);
    true
}

/// The storage-relative path of the resource `class_name`: each dot becomes a file
/// separator and the class suffix is appended (`a.b.C` gives `a/b/C.class`).
pub fn class_to_path(class_name: &str) -> (r: String)
    ensures
        r@ == spec_class_to_path(class_name@),
{
    let n = class_name.unicode_len();
    let mut out = String::new();
    let mut i: usize = 0;
    while i < n
        invariant
            n == class_name@.len(),
            i <= n,
            out@ == dots_to_separators(class_name@.subrange(0, i as int)),
        decreases n - i,
    {
        let ghost before = out@;
        if class_name.get_char(i) == '.' {
            proof {
                reveal_strlit("/");
            }
            out.append("/");
        } else {
            out.append(class_name.substring_char(i, i + 1));
        }
        assert(out@ =~= dots_to_separators(class_name@.subrange(0, i + 1)));
        i = i + 1;
    }
    assert(class_name@.subrange(0, n as int) =~= class_name@);
    proof {
        reveal_strlit(".class");
    }
    out.append(".class");
    assert(".class"@ =~= class_suffix());
    out
}

/// `path` inside the directory `dir`, with one file separator between them.
pub fn join_path(dir: &str, path: &str) -> (r: String)
    ensures
        r@ == spec_join_path(dir@, path@),
{
    let mut out = String::from_str(dir);
    let n = dir.unicode_len();
    if n == 0 || dir.get_char(n - 1) != FILE_SEPARATOR {
        proof {
            reveal_strlit("/");
        }
        out.append("/");
        assert("/"@ =~= seq![FILE_SEPARATOR]);
    }
    out.append(path);
    out
}

/// `path` cut at each path-list separator: the pieces, joined again by the
/// separator, give `path` back, and none of them holds a separator.
pub fn split_path_list(path: &str) -> (r: Vec<String>)
    ensures
        r@.len() >= 1,
        joined(views(r@), PATH_LIST_SEPARATOR) == path@,
        forall|k: int| 0 <= k < r@.len() ==> !(#[trigger] r@[k])@.contains(PATH_LIST_SEPARATOR),
{
    let n = path.unicode_len();
    let mut done: Vec<String> = Vec::new();
    let mut cur = String::new();
    let mut i: usize = 0;
    while i < n
        invariant
            n == path@.len(),
            i <= n,
            joined(views(done@).push(cur@), PATH_LIST_SEPARATOR) == path@.subrange(0, i as int),
            !cur@.contains(PATH_LIST_SEPARATOR),
            forall|k: int| 0 <= k < done@.len() ==> !(#[trigger] done@[k])@.contains(PATH_LIST_SEPARATOR),
        decreases n - i,
    {
        let c = path.get_char(i);
        let ghost old_done = views(done@);
        let ghost old_cur = cur@;
        if c == PATH_LIST_SEPARATOR {
            done.push(cur);
            cur = String::new();
            proof {
                assert(views(done@) =~= old_done.push(old_cur));
                let parts = views(done@).push(cur@);
                assert(parts.drop_last() =~= old_done.push(old_cur));
                assert(path@.subrange(0, i + 1) =~= path@.subrange(0, i as int).push(c));
                assert(joined(parts, PATH_LIST_SEPARATOR) =~= path@.subrange(0, i + 1));
            }
        } else {
            cur.append(path.substring_char(i, i + 1));
            proof {
                assert(cur@ =~= old_cur.push(c));
                let parts = views(done@).push(cur@);
                assert(parts.drop_last() =~= old_done);
                assert(views(done@).push(old_cur).drop_last() =~= old_done);
                assert(path@.subrange(0, i + 1) =~= path@.subrange(0, i as int).push(c));
                if old_done.len() == 0 {
                    assert(joined(parts, PATH_LIST_SEPARATOR) == cur@);
                } else {
                    assert(joined(parts, PATH_LIST_SEPARATOR) =~= joined(old_done, PATH_LIST_SEPARATOR).push(PATH_LIST_SEPARATOR) + cur@);
                }
                assert(joined(parts, PATH_LIST_SEPARATOR) =~= path@.subrange(0, i + 1));
                assert forall|x: char| cur@.contains(x) implies x != PATH_LIST_SEPARATOR by {
                    let j = choose|j: int| 0 <= j < cur@.len() && cur@[j] == x;
                    if j < old_cur.len() {
                        assert(old_cur[j] == x);
                    }
                }
            }
        }
        i = i + 1;
    }
    let ghost before = views(done@).push(cur@);
    done.push(cur);
    proof {
        assert(path@.subrange(0, n as int) =~= path@);
        assert(views(done@) =~= before);
    }
    done
}

} // verus!
