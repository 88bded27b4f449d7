//! File-name parts of `/`-separated paths, as `std::path::Path` reports them
//! on Unix: empty and `.` components are normalized away, a path ending in
//! `..` has no file name, and the extension is what follows the last dot of
//! a file name that does not start with that dot.

use vstd::prelude::*;

use crate::text::{
    lemma_index_of, pieces_view, rfind_sub, rfind_sub_exec, slice_range, split_char, split_exec,
    string_from, chars_of,
};

verus! {

/// The components of a path that are neither empty nor `.`.
pub open spec fn normal_parts(parts: Seq<Seq<char>>) -> Seq<Seq<char>>
    decreases parts.len(),
{
    if parts.len() == 0 {
        seq![]
    } else {
        let prev = normal_parts(parts.drop_last());
        let p = parts.last();
        if p.len() == 0 || p == seq!['.'] {
            prev
        } else {
            prev.push(p)
        }
    }
}

/// The named components of `path`, in order.
pub open spec fn path_parts(path: Seq<char>) -> Seq<Seq<char>> {
    normal_parts(split_char(path, '/'))
}

/// `Path::file_name`: the last component, unless there is none or it is
/// `..`.
pub open spec fn file_name(path: Seq<char>) -> Option<Seq<char>> {
    let t = path_parts(path);
    if t.len() == 0 || t.last() == seq!['.', '.'] {
        None
    } else {
        Some(t.last())
    }
}

/// Position of the last dot of a file name, or `-1`.
pub open spec fn last_dot(name: Seq<char>) -> int {
    rfind_sub(name, seq!['.'])
}

/// `Path::file_stem`: the file name up to its last dot (all of it when the
/// only dot is the first character, or there is none).
pub open spec fn file_stem(path: Seq<char>) -> Option<Seq<char>> {
    match file_name(path) {
        None => None,
        Some(n) => if last_dot(n) <= 0 {
            Some(n)
        } else {
            Some(n.take(last_dot(n)))
        },
    }
}

/// `Path::extension`: what follows the last dot of the file name, when that
/// dot is not its first character.
pub open spec fn extension(path: Seq<char>) -> Option<Seq<char>> {
    match file_name(path) {
        None => None,
        Some(n) => if last_dot(n) <= 0 {
            None
        } else {
            Some(n.skip(last_dot(n) + 1))
        },
    }
}

/// The file name of the parent of a path whose last component is a name.
pub open spec fn parent_name(path: Seq<char>) -> Option<Seq<char>> {
    let t = path_parts(path);
    if t.len() >= 2 && t[t.len() - 2] != seq!['.', '.'] {
        Some(t[t.len() - 2])
    } else {
        None
    }
}

/// Whether `cs` is `..`.
fn is_dot_dot(cs: &Vec<char>) -> (r: bool)
    ensures
        r == (cs@ == seq!['.', '.']),
{
    if cs.len() == 2 && cs[0] == '.' && cs[1] == '.' {
        assert(cs@ =~= seq!['.', '.']);
        true
    } else {
        false
    }
}

/// The named components of `path`.
pub fn path_parts_exec(path: &str) -> (r: Vec<Vec<char>>)
    ensures
        pieces_view(r@) == path_parts(path@),
{
    let cs = chars_of(path);
    let parts = split_exec(cs.as_slice(), '/');
    let ghost ps = split_char(path@, '/');
    let mut out: Vec<Vec<char>> = Vec::new();
    let mut i: usize = 0;
    while i < parts.len()
        invariant
            pieces_view(parts@) == ps,
            i <= ps.len(),
            pieces_view(out@) == normal_parts(ps.take(i as int)),
        decreases ps.len() - i,
    {
        assert(ps.take(i + 1).drop_last() =~= ps.take(i as int));
        assert(ps[i as int] == parts@[i as int]@);
        let p = &parts[i];
        let keep = !(p.len() == 0 || (p.len() == 1 && p[0] == '.'));
        proof {
            if p@.len() == 1 && p@[0] == '.' {
                assert(p@ =~= seq!['.']);
            }
        }
        if keep {
            let copy = slice_range(p.as_slice(), 0, p.len());
            assert(copy@ =~= p@);
            let ghost before = pieces_view(out@);
            out.push(copy);
            assert(pieces_view(out@) =~= before.push(p@));
        }
        i = i + 1;
    }
    assert(ps.take(i as int) =~= ps);
    out
}

/// `Path::file_name`, as text.
pub fn path_file_name(path: &str) -> (r: Option<Vec<char>>)
    ensures
        match r {
            Some(n) => file_name(path@) == Some(n@),
            None => file_name(path@) is None,
        },
{
    let t = path_parts_exec(path);
    if t.len() == 0 {
        return None;
    }
    let last = &t[t.len() - 1];
    assert(pieces_view(t@).last() == last@);
    if is_dot_dot(last) {
        return None;
    }
    Some(slice_range(last.as_slice(), 0, last.len()))
}

/// `Path::extension`, as text.
pub fn path_extension(path: &str) -> (r: Option<String>)
    ensures
        match r {
            Some(e) => extension(path@) == Some(e@),
            None => extension(path@) is None,
        },
{
    match path_file_name(path) {
        None => None,
        Some(n) => {
            let dot = vec!['.'];
            assert(dot@ =~= seq!['.']);
            match rfind_sub_exec(n.as_slice(), dot.as_slice()) {
                Some(i) => {
                    if i == 0 {
                        None
                    } else {
                        let len = n.len();
                        assert(i + 1 <= len);
                        let e = slice_range(n.as_slice(), i + 1, len);
                        assert(e@ =~= n@.skip(i + 1));
                        Some(string_from(e.as_slice()))
                    }
                },
                None => None,
            }
        },
    }
}

/// `Path::file_stem`, as text.
pub fn path_file_stem(path: &str) -> (r: Option<String>)
    ensures
        match r {
            Some(e) => file_stem(path@) == Some(e@),
            None => file_stem(path@) is None,
        },
{
    match path_file_name(path) {
        None => None,
        Some(n) => {
            let dot = vec!['.'];
            assert(dot@ =~= seq!['.']);
            match rfind_sub_exec(n.as_slice(), dot.as_slice()) {
                Some(i) => {
                    if i == 0 {
                        Some(string_from(n.as_slice()))
                    } else {
                        let e = slice_range(n.as_slice(), 0, i);
                        assert(e@ =~= n@.take(i as int));
                        Some(string_from(e.as_slice()))
                    }
                },
                None => Some(string_from(n.as_slice())),
            }
        },
    }
}

/// The file name of the parent directory of `path` (for a path whose last
/// component is a name).
pub fn path_parent_name(path: &str) -> (r: Option<String>)
    ensures
        match r {
            Some(e) => parent_name(path@) == Some(e@),
            None => parent_name(path@) is None,
        },
{
    let t = path_parts_exec(path);
    if t.len() < 2 {
        return None;
    }
    let p = &t[t.len() - 2];
    assert(pieces_view(t@)[t@.len() - 2] == p@);
    if is_dot_dot(p) {
        return None;
    }
    Some(string_from(p.as_slice()))
}

} // verus!
