//! Where a file is written before it is renamed over its destination, which is what keeps an
//! interrupted run from leaving a half file that reads as whole.

use vstd::prelude::*;

use crate::path;
use crate::text;

verus! {

/// The directory a path sits in: the working directory for a bare file name, and for what has no
/// parent at all.
pub open spec fn directory_of(destination: Seq<char>) -> Seq<char> {
    match path::parent_of(destination) {
        Some(parent) if parent.len() > 0 => parent,
        _ => "."@,
    }
}

/// The staging file of a destination: beside it, under its name and `.staged`.
pub open spec fn staging_of(destination: Seq<char>) -> Option<Seq<char>> {
    match (path::file_name_of(destination), path::parent_of(destination)) {
        (Some(name), Some(parent)) => Some(path::joined_to(parent, name + ".staged"@)),
        _ => None,
    }
}

/// The directory a path sits in, and the one both the staging file and the fsync are about.
pub fn directory(destination: &str) -> (r: String)
    ensures
        r@ == directory_of(destination@),
{
    match path::parent(destination) {
        Some(parent) if !parent.as_str().is_empty() => parent,
        _ => String::from_str("."),
    }
}

/// The staging file's own path. A destination that names no file is refused: a bare `/`, or a
/// path ending in `..`. Defaulted, the staging file would land somewhere the caller never named.
pub fn staging(destination: &str) -> (r: Result<String, String>)
    ensures
        match r {
            Ok(staged) => staging_of(destination@) == Some(staged@),
            Err(reason) => staging_of(destination@) is None && path::file_name_of(destination@)
                is None && reason@ == destination@ + " names no file to write"@,
        },
{
    match (path::file_name(destination), path::parent(destination)) {
        (Some(name), Some(parent)) => {
            let mut staged = name;
            staged.append(".staged");
            Ok(path::join(parent.as_str(), staged.as_str()))
        },
        _ => {
            let mut r = String::from_str(destination);
            r.append(" names no file to write");
            Err(r)
        },
    }
}

/// A destination with a name has a staging file, and its name says that it is one.
pub proof fn staging_file_is_named_so(destination: Seq<char>)
    ensures
        path::file_name_of(destination) is Some ==> staging_of(destination) is Some,
        staging_of(destination) matches Some(staged) ==> text::ends(staged, ".staged"@),
{
    if path::file_name_of(destination) is Some {
        let name = path::file_name_of(destination)->0;
        let parent = path::parent_of(destination)->0;
        let staged = name + ".staged"@;
        let r = path::joined_to(parent, staged);
        assert(r.skip(r.len() - staged.len()) =~= staged);
        assert(r.skip(r.len() - ".staged"@.len()) =~= ".staged"@);
    }
}

/// A file is staged beside where it will stand: in the same directory, under its own name with one
/// ending more, and so never in the place of the file itself.
pub proof fn a_file_is_staged_beside_itself(base: Seq<char>, name: Seq<char>)
    requires
        !path::idle(text::pieces(base, '/').last()),
        !name.contains('/'),
        !path::idle(name),
        name != ".."@,
    ensures
        directory_of(base + seq!['/'] + name) == base,
        staging_of(base + seq!['/'] + name) == Some(base + seq!['/'] + name + ".staged"@),
        staging_of(base + seq!['/'] + name) != Some(base + seq!['/'] + name),
        directory_of(base + seq!['/'] + name + ".staged"@) == base,
{
    path::a_path_is_its_parent_and_name(base, name);
    reveal_strlit(".staged");
    reveal_strlit(".");
    reveal_strlit("..");
    let staged = name + ".staged"@;
    assert forall|i: int| 0 <= i < staged.len() implies staged[i] != '/' by {
        if i < name.len() {
            assert(name.contains(name[i]));
        }
    }
    assert(staged.len() > 7);
    path::a_path_is_its_parent_and_name(base, staged);
    assert(base + seq!['/'] + name + ".staged"@ =~= base + seq!['/'] + staged);
    text::lemma_pieces_nonempty(base, '/');
    if base.len() == 0 {
        text::lemma_pieces_end(base, '/');
    }
}

/// A bare name is staged where it stands: in the directory of the run.
pub proof fn a_bare_name_is_staged_where_it_stands(name: Seq<char>)
    requires
        !name.contains('/'),
        !path::idle(name),
        name != ".."@,
    ensures
        directory_of(name) == "."@,
        staging_of(name) == Some(name + ".staged"@),
{
    path::a_bare_name_lies_where_it_is(name);
    reveal_strlit(".staged");
    let staged = name + ".staged"@;
    if path::absolute(staged) {
        if name.len() > 0 {
            assert(name.contains(name[0]));
            assert(staged[0] == name[0]);
        }
    }
    assert(Seq::<char>::empty() + staged =~= staged);
}

}
