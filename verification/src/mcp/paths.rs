//! Paths of files, as texts with `/` between the parts.

use vstd::prelude::*;
use vstd::string::*;

use crate::text;

verus! {

/// The path ends in a separator.
pub open spec fn ends_in_slash(path: Seq<char>) -> bool {
    path.len() > 0 && path.last() == '/'
}

/// The path starts at the root.
pub open spec fn is_absolute(path: Seq<char>) -> bool {
    path.len() > 0 && path[0] == '/'
}

/// `name` below `base`. An absolute `name` stands for itself.
pub open spec fn joined_path(base: Seq<char>, name: Seq<char>) -> Seq<char> {
    if is_absolute(name) {
        name
    } else if base.len() == 0 || ends_in_slash(base) {
        base + name
    } else {
        base + "/"@ + name
    }
}

/// The path of `name` below `base`.
pub fn join_path(base: &str, name: &str) -> (r: String)
    ensures
        r@ == joined_path(base@, name@),
{
    let b = text::chars_of(base);
    let n = text::chars_of(name);
    if n.len() > 0 && n[0] == '/' {
        name.to_owned()
    } else if b.len() == 0 || b[b.len() - 1] == '/' {
        base.to_owned().concat(name)
    } else {
        base.to_owned().concat("/").concat(name)
    }
}

/// The last part of the path is the extension alone, which is then no extension but
/// a name.
pub open spec fn is_bare_extension(path: Seq<char>, extension: Seq<char>) -> bool {
    path == extension || (path.len() > extension.len() && path.skip(path.len() - extension.len())
        == extension && path[path.len() - extension.len() - 1] == '/')
}

/// Whether the last part of the path is the extension alone, which is then a name.
pub fn bare_extension(path: &str, extension: &str) -> (r: bool)
    ensures
        r == is_bare_extension(path@, extension@),
{
    let p = text::chars_of(path);
    let e = text::chars_of(extension);
    if p.len() < e.len() {
        return false;
    }
    let n: usize = p.len() - e.len();
    let ends = text::stands_at(&p, &e, n);
    assert(p@.subrange(n as int, n + e@.len()) =~= p@.skip(n as int));
    assert(n == 0 ==> p@.skip(0) =~= p@);
    ends && (n == 0 || p[n - 1] == '/')
}

/// A file that is replaced as a whole: the content is written to a file beside it,
/// which then takes its place.
pub struct FileWrite {
    pub path: String,
    pub tmp: String,
    pub content: String,
}

} // verus!
