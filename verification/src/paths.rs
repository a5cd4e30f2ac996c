//! File paths as texts: components, file names and stems.

use std::path::{Path, PathBuf};
use vstd::prelude::*;
use vstd::string::*;

verus! {

/// The separator of components.
pub const SEPARATOR: char = '/';

/// Where the text behind the last separator begins.
pub open spec fn name_start(text: Seq<char>) -> nat
    decreases text.len(),
{
    if text.len() == 0 || text.last() == SEPARATOR {
        text.len()
    } else {
        name_start(text.drop_last())
    }
}

/// The last component of a path, if it has one besides the root. Separators at the end and `.`
/// components do not count, but for a `.` that the path begins with.
pub open spec fn last_component(text: Seq<char>) -> Option<Seq<char>>
    decreases text.len(),
{
    if text.len() == 0 {
        None
    } else if text.last() == SEPARATOR {
        last_component(text.drop_last())
    } else {
        let name = text.skip(name_start(text) as int);
        if name == seq!['.'] && text.len() > 1 {
            last_component(text.drop_last())
        } else {
            Some(name)
        }
    }
}

/// The file that a path names: its last component, unless that is `.` or `..`.
pub open spec fn file_name(text: Seq<char>) -> Option<Seq<char>> {
    match last_component(text) {
        Some(name) => if name == seq!['.'] || name == seq!['.', '.'] {
            None
        } else {
            Some(name)
        },
        None => None,
    }
}

/// Whether a place in a name is its last dot.
pub open spec fn is_last_dot(name: Seq<char>, i: int) -> bool {
    0 <= i < name.len() && name[i] == '.' && forall|j: int| i < j < name.len() ==> name[j] != '.'
}

/// A file name without its extension: what comes before its last dot, or all of it where there
/// is no dot but maybe a leading one.
pub open spec fn stem(name: Seq<char>) -> Seq<char> {
    if exists|i: int| i > 0 && #[trigger] is_last_dot(name, i) {
        name.take(choose|i: int| i > 0 && #[trigger] is_last_dot(name, i))
    } else {
        name
    }
}

/// The stem of the file that a path names.
pub open spec fn file_stem(text: Seq<char>) -> Option<Seq<char>> {
    match file_name(text) {
        Some(name) => Some(stem(name)),
        None => None,
    }
}

/// Whether a path starts at the root.
pub open spec fn absolute(text: Seq<char>) -> bool {
    text.len() > 0 && text[0] == SEPARATOR
}

/// A file path of the operating system.
#[verifier::external_type_specification]
#[verifier::external_body]
pub struct ExPath(Path);

/// An owned file path of the operating system.
#[verifier::external_type_specification]
#[verifier::external_body]
pub struct ExPathBuf(PathBuf);

/// The text of a path, with a replacement character for what is not Unicode.
pub uninterp spec fn path_text(path: &Path) -> Seq<char>;

/// `Path::to_string_lossy`: the path's text. Separators and dots are never replaced, so the
/// components of the text are those of the path.
#[verifier::external_body]
pub(crate) fn text_of_path(path: &Path) -> (r: String)
    ensures
        r@ == path_text(path),
{
    path.to_string_lossy().into_owned()
}

/// The characters of a text.
fn characters(text: &str) -> (r: Vec<char>)
    ensures
        r@ == text@,
{
    let mut all: Vec<char> = Vec::new();
    for c in it: text.chars()
        invariant
            all@ == it.seq().take(it.index()),
            it.seq() == text@,
    {
        all.push(c);
    }
    all
}

/// Where the last component of a path begins and ends, and that there is one.
fn find_last_component(chars: &Vec<char>) -> (r: Option<(usize, usize)>)
    ensures
        last_component(chars@) == (match r {
            Some((from, to)) => Some(chars@.subrange(from as int, to as int)),
            None => None,
        }),
        r matches Some((from, to)) ==> from < to <= chars@.len(),
{
    let mut end: usize = chars.len();
    assert(chars@.take(end as int) =~= chars@);
    while end > 0
        invariant
            end <= chars@.len(),
            last_component(chars@) == last_component(chars@.take(end as int)),
        decreases end,
    {
        let ghost text = chars@.take(end as int);
        assert(text.drop_last() =~= chars@.take(end - 1));
        if chars[end - 1] == SEPARATOR {
            end = end - 1;
        } else {
            let mut start: usize = end;
            while start > 0 && chars[start - 1] != SEPARATOR
                invariant
                    start <= end <= chars@.len(),
                    text == chars@.take(end as int),
                    name_start(text) == name_start(chars@.take(start as int)),
                decreases start,
            {
                assert(chars@.take(start as int).drop_last() =~= chars@.take(start - 1));
                start = start - 1;
            }
            let ghost name = text.skip(start as int);
            assert(name =~= chars@.subrange(start as int, end as int));
            assert(name_start(text) == start);
            if start + 1 == end && chars[start] == '.' && end > 1 {
                assert(name =~= seq!['.']);
                end = end - 1;
            } else {
                proof {
                    if name == seq!['.'] {
                        assert(name.len() == 1 && name[0] == '.');
                    }
                    assert(start < end);
                    assert(text.last() != SEPARATOR);
                    assert(last_component(text) == Some(name));
                }
                return Some((start, end));
            }
        }
    }
    None
}

/// Where the stem of the name from `from` to `to` ends.
fn find_stem_end(chars: &Vec<char>, from: usize, to: usize) -> (r: usize)
    requires
        from < to <= chars@.len(),
    ensures
        from <= r <= to,
        chars@.subrange(from as int, r as int) == stem(chars@.subrange(from as int, to as int)),
{
    let ghost name = chars@.subrange(from as int, to as int);
    let mut i: usize = to;
    while i > from + 1
        invariant
            from < i <= to <= chars@.len(),
            name == chars@.subrange(from as int, to as int),
            forall|j: int| i <= j < to ==> chars@[j] != '.',
        decreases i,
    {
        i = i - 1;
        if chars[i] == '.' {
            proof {
                let at = i - from;
                assert(is_last_dot(name, at));
                let chosen = choose|k: int| k > 0 && #[trigger] is_last_dot(name, k);
                assert(is_last_dot(name, chosen));
                assert(chosen == at) by {
                    if chosen < at {
                        assert(name[at] != '.');
                    } else if at < chosen {
                        assert(name[chosen] != '.');
                    }
                }
                assert(chars@.subrange(from as int, i as int) =~= name.take(at));
            }
            return i;
        }
    }
    assert forall|k: int| k > 0 implies !#[trigger] is_last_dot(name, k) by {
        if k < name.len() {
            assert(name[k] == chars@[from + k]);
        }
    }
    to
}

/// The stem of the file that a path names.
pub fn stem_of(path: &str) -> (r: Option<String>)
    ensures
        file_stem(path@) == (match r {
            Some(stem) => Some(stem@),
            None => None,
        }),
{
    let chars: Vec<char> = characters(path);
    match find_last_component(&chars) {
        None => None,
        Some((from, to)) => {
            let ghost name = chars@.subrange(from as int, to as int);
            if to - from == 1 && chars[from] == '.' {
                assert(name =~= seq!['.']);
                return None;
            }
            if to - from == 2 && chars[from] == '.' && chars[from + 1] == '.' {
                assert(name =~= seq!['.', '.']);
                return None;
            }
            proof {
                if name == seq!['.'] {
                    assert(name.len() == 1 && name[0] == '.');
                }
                if name == seq!['.', '.'] {
                    assert(name.len() == 2 && name[0] == '.' && name[1] == '.');
                }
            }
            let end: usize = find_stem_end(&chars, from, to);
            Some(path.substring_char(from, end).to_owned())
        },
    }
}

/// Whether a path starts at the root.
pub fn is_absolute(path: &str) -> (r: bool)
    ensures
        r == absolute(path@),
{
    let chars: Vec<char> = characters(path);
    chars.len() > 0 && chars[0] == SEPARATOR
}

/// Whether a path has a component besides the root, and so a parent.
pub fn has_parent(path: &str) -> (r: bool)
    ensures
        r == last_component(path@) is Some,
{
    find_last_component(&characters(path)).is_some()
}

/// Whether a character is nowhere in a text.
pub open spec fn lacks(text: Seq<char>, c: char) -> bool {
    forall|i: int| 0 <= i < text.len() ==> #[trigger] text[i] != c
}

/// A file name with an extension is its stem, a dot and the extension: whatever comes before the
/// last dot is the stem, of any length.
pub proof fn stems_end_at_the_last_dot(before: Seq<char>, extension: Seq<char>)
    requires
        before.len() > 0,
        lacks(extension, '.'),
    ensures
        stem(before + seq!['.'] + extension) == before,
{
    let name = before + seq!['.'] + extension;
    let at = before.len() as int;
    assert(name[at] == '.');
    assert forall|j: int| at < j < name.len() implies name[j] != '.' by {
        assert(name[j] == extension[j - at - 1]);
    }
    assert(is_last_dot(name, at));
    let chosen = choose|i: int| i > 0 && #[trigger] is_last_dot(name, i);
    assert(chosen == at) by {
        if chosen < at {
            assert(name[at] != '.');
        } else if at < chosen {
            assert(name[chosen] != '.');
        }
    }
    assert(name.take(at) =~= before);
}

/// A name without a dot, but maybe a leading one, is its own stem.
pub proof fn names_without_extension_are_stems(name: Seq<char>)
    requires
        lacks(name.skip(1), '.'),
    ensures
        stem(name) == name,
{
    assert forall|i: int| i > 0 implies !#[trigger] is_last_dot(name, i) by {
        if i < name.len() {
            assert(name[i] == name.skip(1)[i - 1]);
        }
    }
}

/// What stands behind the last separator begins there.
proof fn names_start_behind_the_separator(front: Seq<char>, name: Seq<char>)
    requires
        front.len() == 0 || front.last() == '/',
        lacks(name, '/'),
    ensures
        name_start(front + name) == front.len(),
    decreases name.len(),
{
    if name.len() == 0 {
        assert(front + name =~= front);
    } else {
        let shorter = name.drop_last();
        assert forall|i: int| 0 <= i < shorter.len() implies #[trigger] shorter[i] != '/' by {
            assert(shorter[i] == name[i]);
        }
        names_start_behind_the_separator(front, shorter);
        assert((front + name).drop_last() =~= front + shorter);
        assert((front + name).last() == name[name.len() - 1]);
    }
}

/// The last component of a path is the name behind its last separator.
pub proof fn the_last_name_is_the_last_component(front: Seq<char>, name: Seq<char>)
    requires
        front.len() == 0 || front.last() == '/',
        name.len() > 0,
        name != seq!['.'],
        lacks(name, '/'),
    ensures
        last_component(front + name) == Some(name),
{
    names_start_behind_the_separator(front, name);
    assert((front + name).last() == name[name.len() - 1]);
    assert((front + name).skip(front.len() as int) =~= name);
}

/// Separators at the end of a path do not count, nor does a `.` that does not begin it.
pub proof fn trailing_separators_and_dots_do_not_count(path: Seq<char>)
    ensures
        last_component(path.push('/')) == last_component(path),
        path.len() > 0 && path.last() == '/' ==> last_component(path.push('.')) == last_component(
            path,
        ),
        last_component(Seq::empty()) is None,
        last_component(seq!['.']) == Some(seq!['.']),
{
    assert(path.push('/').drop_last() =~= path);
    assert(path.push('.').drop_last() =~= path);
    if path.len() > 0 && path.last() == '/' {
        names_start_behind_the_separator(path, seq!['.']);
        assert(path + seq!['.'] =~= path.push('.'));
        assert(path.push('.').skip(path.len() as int) =~= seq!['.']);
    }
    names_start_behind_the_separator(Seq::empty(), seq!['.']);
    assert(Seq::<char>::empty() + seq!['.'] =~= seq!['.']);
    assert(seq!['.'].skip(0) =~= seq!['.']);
}

/// A path names the file behind its last separator, whatever directory it is in, but `.` and `..`
/// name none.
pub proof fn paths_name_their_last_part(front: Seq<char>, name: Seq<char>)
    requires
        front.len() == 0 || front.last() == '/',
        name.len() > 0,
        lacks(name, '/'),
        name != seq!['.'],
    ensures
        file_name(front + name) == (if name == seq!['.', '.'] {
            None
        } else {
            Some(name)
        }),
        file_name((front + name).push('/')) == file_name(front + name),
{
    the_last_name_is_the_last_component(front, name);
    trailing_separators_and_dots_do_not_count(front + name);
}

/// The stem of a file in any directory is its name without the last extension, of any length.
pub proof fn file_stems_drop_the_extension(
    front: Seq<char>,
    before: Seq<char>,
    extension: Seq<char>,
)
    requires
        front.len() == 0 || front.last() == '/',
        before.len() > 0,
        lacks(before, '/'),
        lacks(extension, '/'),
        lacks(extension, '.'),
        !(before == seq!['.'] && extension.len() == 0),
    ensures
        file_stem(front + (before + seq!['.'] + extension)) == Some(before),
{
    let name = before + seq!['.'] + extension;
    assert forall|i: int| 0 <= i < name.len() implies #[trigger] name[i] != '/' by {
        if i < before.len() {
            assert(name[i] == before[i]);
        } else if i > before.len() {
            assert(name[i] == extension[i - before.len() - 1]);
        }
    }
    assert(name.len() > 1);
    if name == seq!['.', '.'] {
        assert(name.len() == 2);
        assert(before =~= seq!['.']) by {
            assert(before[0] == name[0]);
        }
    }
    paths_name_their_last_part(front, name);
    stems_end_at_the_last_dot(before, extension);
}

/// The stem of a file without an extension, in any directory, is its whole name.
pub proof fn file_stems_keep_plain_names(front: Seq<char>, name: Seq<char>)
    requires
        front.len() == 0 || front.last() == '/',
        name.len() > 0,
        lacks(name, '/'),
        lacks(name.skip(1), '.'),
        name != seq!['.'],
    ensures
        file_stem(front + name) == Some(name),
{
    if name == seq!['.', '.'] {
        assert(name.skip(1)[0] == '.');
    }
    paths_name_their_last_part(front, name);
    names_without_extension_are_stems(name);
}

/// A path is absolute exactly where it begins with a separator, whatever follows.
pub proof fn absolute_paths_begin_with_a_separator(path: Seq<char>)
    ensures
        absolute(path) <==> exists|rest: Seq<char>| path == #[trigger] (seq!['/'] + rest),
{
    if absolute(path) {
        assert(path =~= seq!['/'] + path.skip(1));
    }
}

} // verus!
