//! The file name of a path.
use vstd::prelude::*;

use crate::text::{optional_text, texts};

verus! {

/// Where the last slash of the path stands; -1 if there is none.
pub open spec fn last_slash(path: Seq<char>) -> int
    decreases path.len(),
{
    if path.len() == 0 {
        -1
    } else if path.last() == '/' {
        path.len() - 1
    } else {
        last_slash(path.drop_last())
    }
}

/// The last slash of a path stands inside it.
pub proof fn lemma_last_slash(path: Seq<char>)
    ensures
        -1 <= last_slash(path) < path.len(),
    decreases path.len(),
{
    if path.len() > 0 {
        lemma_last_slash(path.drop_last());
    }
}

/// The final component of a path whose components are parted by slashes. Empty components and `.`
/// do not count; a path that ends in `..` has no file name.
pub open spec fn last_component(path: Seq<char>) -> Option<Seq<char>>
    decreases path.len(),
{
    let slash = last_slash(path);
    let name = path.skip(slash + 1);
    if name.len() == 0 || name == seq!['.'] {
        if slash < 0 {
            None
        } else {
            proof {
                lemma_last_slash(path);
            }
            last_component(path.take(slash))
        }
    } else if name == seq!['.', '.'] {
        None
    } else {
        Some(name)
    }
}

/// The characters that part the components of a path, on Windows at least.
pub open spec fn is_separator(c: char) -> bool {
    c == '/' || c == '\\'
}

/// Whether a path begins with two separators, as the paths do that Windows reads in ways of their own.
pub open spec fn begins_doubly(path: Seq<char>) -> bool {
    path.len() >= 2 && is_separator(path[0]) && is_separator(path[1])
}

/// Whether the file name of a path is the same on Unix and on Windows: the path does not begin with two
/// separators, and its final component between slashes holds nothing that Windows could read as a
/// separator or as the end of a prefix. What stands before that component does not matter.
pub open spec fn has_fixed_name(path: Seq<char>) -> bool {
    &&& !begins_doubly(path)
    &&& match last_component(path) {
        Some(name) => !name.contains('\\') && !name.contains(':'),
        None => true,
    }
}

/// Whether a text is a part of another.
pub open spec fn is_part_of(part: Seq<char>, whole: Seq<char>) -> bool {
    exists|i: int, j: int|
        0 <= i <= j <= whole.len() && part == #[trigger] whole.subrange(i, j)
}

/// Whether a platform may take `name` for the file name of the path. Where that rests with the
/// platform, the name is still a part of the path and not empty, and holds no slash unless the path
/// begins with two separators.
pub open spec fn may_be_file_name(path: Seq<char>, name: Option<Seq<char>>) -> bool {
    &&& has_fixed_name(path) ==> name == last_component(path)
    &&& match name {
        Some(text) => text.len() > 0 && is_part_of(text, path) && (!begins_doubly(path)
            ==> !text.contains('/')),
        None => true,
    }
}

/// `std::path::Path::file_name`: the final component of the path, if it has one. Slashes part the
/// components on Unix and on Windows. On Windows backslashes do so too, a colon can end a prefix, and
/// a path that begins with two separators can be one in which slashes part nothing; which of these
/// hold is left unsaid.
#[verifier::external_body]
pub(crate) fn file_name(path: &str) -> (name: Option<String>)
    ensures
        may_be_file_name(path@, optional_text(name)),
{
    std::path::Path::new(path).file_name().map(|name| name.to_string_lossy().into_owned())
}

/// Whether `names` holds, for each of the paths, what the platform takes for its file name.
pub open spec fn are_file_names(paths: Seq<Seq<char>>, names: Seq<Option<Seq<char>>>) -> bool {
    &&& names.len() == paths.len()
    &&& forall|i: int| 0 <= i < paths.len() ==> may_be_file_name(paths[i], #[trigger] names[i])
}

/// The texts that a list of optional strings holds.
pub open spec fn optional_texts(list: Seq<Option<String>>) -> Seq<Option<Seq<char>>> {
    Seq::new(list.len(), |i: int| optional_text(list[i]))
}

/// The file name of each path.
pub fn file_names(paths: &Vec<String>) -> (names: Vec<Option<String>>)
    ensures
        are_file_names(texts(paths@), optional_texts(names@)),
{
    let mut names: Vec<Option<String>> = Vec::new();
    let mut i: usize = 0;
    while i < paths.len()
        invariant
            i <= paths.len(),
            names.len() == i,
            forall|j: int|
                0 <= j < i ==> may_be_file_name(paths[j]@, optional_text(#[trigger] names[j])),
        decreases paths.len() - i,
    {
        names.push(file_name(paths[i].as_str()));
        i += 1;
    }
    assert forall|j: int| 0 <= j < paths.len() implies may_be_file_name(
        texts(paths@)[j],
        #[trigger] optional_texts(names@)[j],
    ) by {
        assert(optional_texts(names@)[j] == optional_text(names[j]));
    }
    names
}

} // verus!
