//! Path text as `Path::join` builds it on Unix, without touching the file system.
use vstd::prelude::*;
use crate::decimal::{i64_decimal, signed_decimal_seq};
use crate::text::{append_str, append_vec, chars_of, has_prefix, starts_with, string_of};

verus! {

broadcast use vstd::string::group_string_axioms;

/// `base` joined with `part` as `Path::join` does: an absolute `part` replaces
/// `base`; otherwise a `/` separates them unless `base` is empty or already ends
/// with one.
pub open spec fn path_join_seq(base: Seq<char>, part: Seq<char>) -> Seq<char> {
    if part.len() > 0 && part[0] == '/' {
        part
    } else if base.len() == 0 {
        part
    } else if base.last() == '/' {
        base + part
    } else {
        base + seq!['/'] + part
    }
}

pub fn path_join(base: &Vec<char>, part: &Vec<char>) -> (r: Vec<char>)
    ensures
        r@ == path_join_seq(base@, part@),
{
    if part.len() > 0 && part[0] == '/' {
        return part.clone();
    }
    let mut out = base.clone();
    if base.len() > 0 && base[base.len() - 1] != '/' {
        out.push('/');
    }
    append_vec(&mut out, part);
    out
}

pub fn path_join_str(base: &Vec<char>, part: &str) -> (r: Vec<char>)
    ensures
        r@ == path_join_seq(base@, part@),
{
    path_join(base, &chars_of(part))
}

/// `base` joined with the decimal text of `n`.
pub fn path_join_id(base: &Vec<char>, n: i64) -> (r: Vec<char>)
    ensures
        r@ == path_join_seq(base@, signed_decimal_seq(n as int)),
{
    path_join(base, &i64_decimal(n))
}

/// `path` lies under `root` as `Path::starts_with` decides it for canonical paths
/// (absolute, no `.` or `..`, no trailing `/` but on `/` itself): `path` is `root`,
/// or continues it after a `/` separator.
pub open spec fn path_under(path: Seq<char>, root: Seq<char>) -> bool {
    path == root || (has_prefix(path, root) && root.len() > 0 && (root.last() == '/' || path[root.len() as int]
        == '/'))
}

pub fn is_path_under(path: &str, root: &str) -> (r: bool)
    ensures
        r == path_under(path@, root@),
{
    let p = chars_of(path);
    let q = chars_of(root);
    if crate::text::vec_eq(&p, &q) {
        return true;
    }
    if q.len() == 0 || !starts_with(&p, &q) {
        return false;
    }
    if q[q.len() - 1] == '/' {
        return true;
    }
    if p.len() == q.len() {
        assert(p@ =~= p@.subrange(0, q@.len() as int));
        return false;
    }
    p[q.len()] == '/'
}

} // verus!
