//! The names in paths.
use vstd::prelude::*;
#[allow(unused_imports)]
use crate::lines::split_char;
#[allow(unused_imports)]
use crate::text::contains_text;

verus! {

/// The components of a path whose components are separated by `/`. Empty components and those for
/// the current directory name nothing.
pub open spec fn naming_parts(path: Seq<char>) -> Seq<Seq<char>> {
    split_char(path, '/').filter(|part: Seq<char>| part.len() > 0 && part != "."@)
}

/// The last component of such a path, unless it leads to a parent directory.
pub open spec fn last_name(path: Seq<char>) -> Option<Seq<char>> {
    let parts = naming_parts(path);
    if parts.len() == 0 || parts.last() == ".."@ {
        None
    } else {
        Some(parts.last())
    }
}

/// Whether a path is read alike on Unix and on Windows: it has no backslash and no colon, and does
/// not start with two slashes, as the name of a shared folder does.
pub open spec fn reads_alike(path: Seq<char>) -> bool {
    !path.contains('\\') && !path.contains(':') && !(path.len() >= 2 && path[0] == '/' && path[1]
        == '/')
}

/// The last component of a path, from `std::path::Path::file_name`, which leaves out a component
/// that leads to a parent directory. Components are separated by `/` on Unix and by `/` or `\` on
/// Windows; repeated separators and components `.` are passed over. So the result is exact for a
/// path that both read alike. Of any other path only this is claimed: the result is a part of it.
#[verifier::external_body]
pub(crate) fn file_name_of(path: &str) -> (r: Option<String>)
    ensures
        reads_alike(path@) ==> match r {
            Some(name) => last_name(path@) == Some(name@),
            None => last_name(path@) is None,
        },
        r matches Some(name) ==> contains_text(path@, name@),
{
    std::path::Path::new(path).file_name().and_then(|name| name.to_str()).map(
        |name| name.to_string(),
    )
}

} // verus!
