//! Paths, with `/` between their parts.
use vstd::prelude::*;

use crate::text::{characters, copy_texts, same_text, texts_view};

verus! {

/// Whether a path begins at the root.
pub open spec fn is_absolute(path: Seq<char>) -> bool {
    path.len() > 0 && path[0] == '/'
}

/// How many characters stand before the first separator.
pub open spec fn name_length(text: Seq<char>) -> int
    decreases text.len(),
{
    if text.len() == 0 || text[0] == '/' {
        0
    } else {
        1 + name_length(text.drop_first())
    }
}

/// What follows the first separator.
pub open spec fn after_name(text: Seq<char>) -> Seq<char> {
    if name_length(text) < text.len() {
        text.skip(name_length(text) + 1)
    } else {
        Seq::empty()
    }
}

/// Whether a name counts as a part of a path. No name does not, and one dot does only where a path
/// begins with it.
pub open spec fn is_part(name: Seq<char>, leading: bool) -> bool {
    name.len() > 0 && (leading || name != seq!['.'])
}

/// The parts of a path from some place on.
pub open spec fn parts_from(text: Seq<char>, leading: bool) -> Seq<Seq<char>>
    decreases text.len(),
    via parts_shrink
{
    if text.len() == 0 {
        Seq::empty()
    } else {
        let name = text.take(name_length(text));
        let rest = parts_from(after_name(text), false);
        if is_part(name, leading) {
            seq![name] + rest
        } else {
            rest
        }
    }
}

#[via_fn]
proof fn parts_shrink(text: Seq<char>, leading: bool) {
    lemma_name_length(text);
}

/// The parts of a path.
pub open spec fn parts_of(path: Seq<char>) -> Seq<Seq<char>> {
    parts_from(path, !is_absolute(path))
}

proof fn lemma_name_length(text: Seq<char>)
    ensures
        0 <= name_length(text) <= text.len(),
        forall|i: int| 0 <= i < name_length(text) ==> #[trigger] text[i] != '/',
        name_length(text) < text.len() ==> text[name_length(text)] == '/',
    decreases text.len(),
{
    if text.len() > 0 && text[0] != '/' {
        let rest = text.drop_first();
        lemma_name_length(rest);
        assert forall|i: int| 0 <= i < name_length(text) implies #[trigger] text[i] != '/' by {
            if i > 0 {
                assert(text[i] == rest[i - 1]);
            }
        }
        if name_length(text) < text.len() {
            assert(text[name_length(text)] == rest[name_length(rest)]);
        }
    }
}

proof fn lemma_name_length_is(text: Seq<char>, length: int)
    requires
        0 <= length <= text.len(),
        forall|i: int| 0 <= i < length ==> #[trigger] text[i] != '/',
        length < text.len() ==> text[length] == '/',
    ensures
        name_length(text) == length,
{
    lemma_name_length(text);
    let found = name_length(text);
    if found < length {
        assert(text[found] != '/');
    } else if length < found {
        assert(text[length] != '/');
    }
}

/// Where the name ends that begins at a place.
fn name_end(chars: &Vec<char>, start: usize) -> (end: usize)
    requires
        start <= chars@.len(),
    ensures
        start <= end <= chars@.len(),
        end - start == name_length(chars@.skip(start as int)),
{
    let mut end: usize = start;
    while end < chars.len() && chars[end] != '/'
        invariant
            start <= end <= chars@.len(),
            forall|i: int| start <= i < end ==> #[trigger] chars@[i] != '/',
        decreases chars@.len() - end,
    {
        end = end + 1;
    }
    proof {
        let text = chars@.skip(start as int);
        assert forall|i: int| 0 <= i < end - start implies #[trigger] text[i] != '/' by {
            assert(text[i] == chars@[start + i]);
        }
        lemma_name_length_is(text, end - start);
    }
    end
}

/// Whether the characters between two places count as a part of a path.
fn counts(chars: &Vec<char>, start: usize, end: usize, leading: bool) -> (holds: bool)
    requires
        start <= end <= chars@.len(),
    ensures
        holds == is_part(chars@.subrange(start as int, end as int), leading),
{
    let one_dot: bool = end - start == 1 && chars[start] == '.';
    proof {
        let name = chars@.subrange(start as int, end as int);
        if one_dot {
            assert(name =~= seq!['.']);
        } else if name.len() == 1 {
            assert(name[0] == chars@[start as int]);
            assert(seq!['.'][0] == '.');
        }
    }
    end > start && (leading || !one_dot)
}

proof fn lemma_step(chars: Seq<char>, start: int, end: int)
    requires
        0 <= start < chars.len(),
        start <= end <= chars.len(),
        end - start == name_length(chars.skip(start)),
    ensures
        chars.skip(start).take(name_length(chars.skip(start))) == chars.subrange(start, end),
        after_name(chars.skip(start)) == chars.skip(
            if end < chars.len() {
                end + 1
            } else {
                chars.len() as int
            },
        ),
{
    let text = chars.skip(start);
    assert(text.take(end - start) =~= chars.subrange(start, end));
    if end < chars.len() {
        assert(text.skip(end - start + 1) =~= chars.skip(end + 1));
    } else {
        assert(chars.skip(chars.len() as int) =~= Seq::<char>::empty());
    }
}

/// The parts of a path.
pub fn components(path: &str) -> (parts: Vec<String>)
    ensures
        texts_view(parts@) == parts_of(path@),
{
    let chars: Vec<char> = characters(path);
    let mut parts: Vec<String> = Vec::new();
    let mut start: usize = 0;
    let mut leading: bool = !(chars.len() > 0 && chars[0] == '/');
    proof {
        assert(path@.skip(0) =~= path@);
        assert(texts_view(parts@) + parts_of(path@) =~= parts_of(path@));
    }
    while start < chars.len()
        invariant
            chars@ == path@,
            start <= path@.len(),
            texts_view(parts@) + parts_from(path@.skip(start as int), leading) == parts_of(path@),
        decreases path@.len() - start,
    {
        let end: usize = name_end(&chars, start);
        let ghost before = texts_view(parts@);
        proof {
            lemma_step(path@, start as int, end as int);
        }
        let next: usize = if end < chars.len() {
            end + 1
        } else {
            end
        };
        let ghost rest = parts_from(path@.skip(next as int), false);
        if counts(&chars, start, end, leading) {
            let name: String = path.substring_char(start, end).to_owned();
            proof {
                assert(texts_view(parts@.push(name)) =~= before.push(name@));
                assert(before + (seq![name@] + rest) =~= before.push(name@) + rest);
            }
            parts.push(name);
        }
        leading = false;
        start = next;
    }
    proof {
        assert(path@.skip(start as int) =~= Seq::<char>::empty());
        assert(texts_view(parts@) + Seq::<Seq<char>>::empty() =~= texts_view(parts@));
    }
    parts
}

/// Whether a path begins with another: with the root where the other does, and with its parts. Every
/// path begins with the one that has neither.
pub open spec fn starts_with(path: Seq<char>, base: Seq<char>) -> bool {
    ||| !is_absolute(base) && parts_of(base).len() == 0
    ||| is_absolute(path) == is_absolute(base) && parts_of(base).is_prefix_of(parts_of(path))
}

fn absolute(path: &str) -> (holds: bool)
    ensures
        holds == is_absolute(path@),
{
    path.unicode_len() > 0 && path.get_char(0) == '/'
}

/// Whether a path begins with another.
pub fn path_starts_with(path: &str, base: &str) -> (holds: bool)
    ensures
        holds == starts_with(path@, base@),
{
    let parts: Vec<String> = components(path);
    let base_parts: Vec<String> = components(base);
    proof {
        assert(parts_of(base@).len() == base_parts@.len());
    }
    if !absolute(base) && base_parts.len() == 0 {
        return true;
    }
    if absolute(path) != absolute(base) {
        return false;
    }
    if base_parts.len() > parts.len() {
        return false;
    }
    let mut index: usize = 0;
    while index < base_parts.len()
        invariant
            index <= base_parts@.len() <= parts@.len(),
            texts_view(parts@) == parts_of(path@),
            texts_view(base_parts@) == parts_of(base@),
            forall|i: int| 0 <= i < index ==> parts_of(path@)[i] == #[trigger] parts_of(base@)[i],
        decreases base_parts@.len() - index,
    {
        proof {
            assert(texts_view(parts@)[index as int] == parts@[index as int]@);
            assert(texts_view(base_parts@)[index as int] == base_parts@[index as int]@);
        }
        if !same_text(parts[index].as_str(), base_parts[index].as_str()) {
            return false;
        }
        index = index + 1;
    }
    proof {
        assert(parts_of(base@) =~= parts_of(path@).subrange(0, parts_of(base@).len() as int));
    }
    true
}

/// A path that a session asks for: as it is where it begins at the root, else below the working
/// directory.
pub open spec fn resolved(session_cwd: Seq<char>, path: Seq<char>) -> Seq<char> {
    if is_absolute(path) {
        path
    } else if session_cwd.len() > 0 && session_cwd.last() != '/' {
        session_cwd + seq!['/'] + path
    } else {
        session_cwd + path
    }
}

/// A path that a session asks for: as it is where it begins at the root, else below the working
/// directory.
pub fn resolve_path(session_cwd: &str, path: &str) -> (full: String)
    ensures
        full@ == resolved(session_cwd@, path@),
{
    if absolute(path) {
        return path.to_owned();
    }
    let mut full: String = session_cwd.to_owned();
    let length: usize = session_cwd.unicode_len();
    if length > 0 && session_cwd.get_char(length - 1) != '/' {
        full.push('/');
        proof {
            assert(full@ =~= session_cwd@ + seq!['/']);
        }
    }
    full.append(path);
    full
}

/// The directory in which a command is to run: the one that is asked for, else that of the session.
pub fn requested_directory(requested: Option<&str>, session_cwd: &str) -> (full: String)
    ensures
        full@ == match requested {
            Some(path) => resolved(session_cwd@, path@),
            None => session_cwd@,
        },
{
    match requested {
        Some(path) => resolve_path(session_cwd, path),
        None => session_cwd.to_owned(),
    }
}

/// Whether a directory lies in one of several.
pub open spec fn lies_in_one(directory: Seq<char>, roots: Seq<Seq<char>>) -> bool {
    exists|i: int| 0 <= i < roots.len() && starts_with(directory, #[trigger] roots[i])
}

/// The directories that a command may write to: those of the session, and the one in which it runs
/// where that lies in none of them.
pub open spec fn allowed_roots(roots: Seq<Seq<char>>, directory: Seq<char>) -> Seq<Seq<char>> {
    if lies_in_one(directory, roots) {
        roots
    } else {
        roots.push(directory)
    }
}

/// The directories that a command may write to.
pub fn writable_roots(permitted: &Vec<String>, directory: &str) -> (roots: Vec<String>)
    ensures
        texts_view(roots@) == allowed_roots(texts_view(permitted@), directory@),
{
    let mut roots: Vec<String> = copy_texts(permitted);
    let ghost views = texts_view(permitted@);
    let mut index: usize = 0;
    while index < permitted.len()
        invariant
            views == texts_view(permitted@),
            texts_view(roots@) == views,
            index <= permitted@.len(),
            forall|i: int| 0 <= i < index ==> !starts_with(directory@, #[trigger] views[i]),
        decreases permitted@.len() - index,
    {
        proof {
            assert(views[index as int] == permitted@[index as int]@);
        }
        if path_starts_with(directory, permitted[index].as_str()) {
            return roots;
        }
        index = index + 1;
    }
    let ghost before = roots@;
    roots.push(directory.to_owned());
    proof {
        assert(texts_view(roots@) =~= texts_view(before).push(directory@));
    }
    roots
}

/// A command may write to the directory in which it runs, and to no other that the session does
/// not permit.
pub proof fn law_writable_roots(roots: Seq<Seq<char>>, directory: Seq<char>)
    ensures
        lies_in_one(directory, allowed_roots(roots, directory)),
        roots.is_prefix_of(allowed_roots(roots, directory)),
        forall|i: int|
            roots.len() <= i < allowed_roots(roots, directory).len() ==> #[trigger] allowed_roots(
                roots,
                directory,
            )[i] == directory,
{
    let all = allowed_roots(roots, directory);
    assert(roots =~= all.subrange(0, roots.len() as int));
    if !lies_in_one(directory, roots) {
        assert(all[roots.len() as int] == directory);
        assert(parts_of(directory) =~= parts_of(directory).subrange(
            0,
            parts_of(directory).len() as int,
        ));
        assert(starts_with(directory, all[roots.len() as int]));
    }
}

/// What follows the first parts of a path.
pub open spec fn after_parts(text: Seq<char>, leading: bool, count: int) -> Seq<char>
    decreases text.len(),
    via after_parts_shrink
{
    if count <= 0 || text.len() == 0 {
        text
    } else if is_part(text.take(name_length(text)), leading) {
        after_parts(after_name(text), false, count - 1)
    } else {
        after_parts(after_name(text), false, count)
    }
}

#[via_fn]
proof fn after_parts_shrink(text: Seq<char>, leading: bool, count: int) {
    lemma_name_length(text);
}

/// A path without what stands before its first part.
pub open spec fn trimmed_front(text: Seq<char>) -> Seq<char>
    decreases text.len(),
    via trimmed_front_shrink
{
    if text.len() == 0 || is_part(text.take(name_length(text)), false) {
        text
    } else {
        trimmed_front(after_name(text))
    }
}

#[via_fn]
proof fn trimmed_front_shrink(text: Seq<char>) {
    lemma_name_length(text);
}

/// Where the last name of a path begins, after its first `keep` characters.
pub open spec fn last_name_start(text: Seq<char>, keep: int) -> int
    decreases text.len(),
{
    if text.len() <= keep || text.len() == 0 || text.last() == '/' {
        text.len() as int
    } else {
        last_name_start(text.drop_last(), keep)
    }
}

/// A path without its last name and the separator before it, its first `keep` characters left as
/// they are.
pub open spec fn without_last_name(text: Seq<char>, keep: int) -> Seq<char> {
    let start = last_name_start(text, keep);
    text.take(
        if start > keep {
            start - 1
        } else {
            start
        },
    )
}

/// A path without what stands behind its last part, its first `keep` characters left as they are.
pub open spec fn trimmed_back(text: Seq<char>, keep: int) -> Seq<char>
    decreases text.len(),
    via trimmed_back_shrink
{
    if text.len() <= keep || keep < 0 || is_part(text.skip(last_name_start(text, keep)), false) {
        text
    } else {
        trimmed_back(without_last_name(text, keep), keep)
    }
}

#[via_fn]
proof fn trimmed_back_shrink(text: Seq<char>, keep: int) {
    if 0 <= keep < text.len() {
        lemma_last_name_start(text, keep);
    }
}

proof fn lemma_last_name_start(text: Seq<char>, keep: int)
    requires
        0 <= keep <= text.len(),
    ensures
        keep <= last_name_start(text, keep) <= text.len(),
        last_name_start(text, keep) > keep ==> text[last_name_start(text, keep) - 1] == '/',
        forall|i: int| last_name_start(text, keep) <= i < text.len() ==> #[trigger] text[i] != '/',
    decreases text.len(),
{
    if text.len() > keep && text.last() != '/' {
        let front = text.drop_last();
        lemma_last_name_start(front, keep);
        assert forall|i: int| last_name_start(text, keep) <= i < text.len() implies #[trigger] text[i]
            != '/' by {
            if i < front.len() {
                assert(front[i] == text[i]);
            }
        }
        if last_name_start(text, keep) > keep {
            assert(front[last_name_start(text, keep) - 1] == text[last_name_start(text, keep) - 1]);
        }
    }
}

/// How many characters stand before the names of a path: the separator where it begins at the root,
/// or one dot where it begins with one.
pub open spec fn names_start(path: Seq<char>) -> int {
    if is_absolute(path) || (path.len() > 0 && path[0] == '.' && (path.len() == 1 || path[1]
        == '/')) {
        1
    } else {
        0
    }
}

/// What is left of a path without the parts of another; nothing where it does not begin with them.
pub open spec fn stripped(path: Seq<char>, base: Seq<char>) -> Option<Seq<char>> {
    if !starts_with(path, base) {
        None
    } else if !is_absolute(base) && parts_of(base).len() == 0 {
        Some(trimmed_back(path, names_start(path)))
    } else {
        Some(
            trimmed_back(
                trimmed_front(
                    after_parts(path, !is_absolute(path), parts_of(base).len() as int),
                ),
                0,
            ),
        )
    }
}

/// Where what follows the first parts of a path begins.
fn skip_parts(chars: &Vec<char>, count: usize) -> (place: usize)
    ensures
        place <= chars@.len(),
        chars@.skip(place as int) == after_parts(chars@, !is_absolute(chars@), count as int),
{
    let mut place: usize = 0;
    let mut left: usize = count;
    let mut leading: bool = !(chars.len() > 0 && chars[0] == '/');
    proof {
        assert(chars@.skip(0) =~= chars@);
    }
    while left > 0 && place < chars.len()
        invariant
            place <= chars@.len(),
            after_parts(chars@.skip(place as int), leading, left as int) == after_parts(
                chars@,
                !is_absolute(chars@),
                count as int,
            ),
        decreases chars@.len() - place,
    {
        let end: usize = name_end(chars, place);
        proof {
            lemma_step(chars@, place as int, end as int);
        }
        if counts(chars, place, end, leading) {
            left = left - 1;
        }
        leading = false;
        place = if end < chars.len() {
            end + 1
        } else {
            end
        };
    }
    place
}

/// Where a path begins without what stands before its first part.
fn skip_front(chars: &Vec<char>, start: usize) -> (place: usize)
    requires
        start <= chars@.len(),
    ensures
        place <= chars@.len(),
        chars@.skip(place as int) == trimmed_front(chars@.skip(start as int)),
{
    let mut place: usize = start;
    while place < chars.len()
        invariant
            place <= chars@.len(),
            trimmed_front(chars@.skip(place as int)) == trimmed_front(chars@.skip(start as int)),
        decreases chars@.len() - place,
    {
        let end: usize = name_end(chars, place);
        proof {
            lemma_step(chars@, place as int, end as int);
        }
        if counts(chars, place, end, false) {
            return place;
        }
        place = if end < chars.len() {
            end + 1
        } else {
            end
        };
    }
    place
}

/// Where the last name of a path begins, after its first `keep` characters.
fn find_last_name(chars: &Vec<char>, keep: usize) -> (start: usize)
    requires
        keep <= chars@.len(),
    ensures
        keep <= start <= chars@.len(),
        start == last_name_start(chars@, keep as int),
{
    let mut start: usize = chars.len();
    proof {
        assert(chars@.take(start as int) =~= chars@);
    }
    while start > keep && chars[start - 1] != '/'
        invariant
            keep <= start <= chars@.len(),
            last_name_start(chars@.take(start as int), keep as int) == last_name_start(
                chars@,
                keep as int,
            ),
        decreases start,
    {
        proof {
            assert(chars@.take(start as int).drop_last() =~= chars@.take(start - 1));
        }
        start = start - 1;
    }
    start
}

/// Takes away the last name of a path and the separator before it.
fn drop_last_name(chars: &mut Vec<char>, keep: usize, start: usize)
    requires
        keep <= start <= old(chars)@.len(),
        start == last_name_start(old(chars)@, keep as int),
    ensures
        final(chars)@ == without_last_name(old(chars)@, keep as int),
{
    let length: usize = if start > keep {
        start - 1
    } else {
        start
    };
    proof {
        assert(chars@.subrange(0, length as int) =~= chars@.take(length as int));
    }
    chars.truncate(length);
}

/// Takes away what stands behind the last part of a path.
fn trim_back(chars: &mut Vec<char>, keep: usize)
    ensures
        final(chars)@ == trimmed_back(old(chars)@, keep as int),
{
    while chars.len() > keep
        invariant
            trimmed_back(chars@, keep as int) == trimmed_back(old(chars)@, keep as int),
        decreases chars@.len(),
    {
        let start: usize = find_last_name(chars, keep);
        proof {
            assert(chars@.subrange(start as int, chars@.len() as int) =~= chars@.skip(start as int));
        }
        if counts(chars, start, chars.len(), false) {
            return ;
        }
        proof {
            lemma_last_name_start(chars@, keep as int);
        }
        drop_last_name(chars, keep, start);
    }
}

/// A text of characters.
fn text_of(chars: &Vec<char>) -> (text: String)
    ensures
        text@ == chars@,
{
    let mut text: String = String::new();
    let mut index: usize = 0;
    while index < chars.len()
        invariant
            index <= chars@.len(),
            text@ == chars@.take(index as int),
        decreases chars@.len() - index,
    {
        proof {
            assert(chars@.take(index + 1) =~= chars@.take(index as int).push(chars@[index as int]));
        }
        text.push(chars[index]);
        index = index + 1;
    }
    proof {
        assert(chars@.take(index as int) =~= chars@);
    }
    text
}

fn start_of_names(chars: &Vec<char>) -> (start: usize)
    ensures
        start == names_start(chars@),
{
    if chars.len() > 0 && (chars[0] == '/' || (chars[0] == '.' && (chars.len() == 1 || chars[1]
        == '/'))) {
        1
    } else {
        0
    }
}

/// A path as it is shown: what is left of it without the parts of the working directory, or all of
/// it where it lies elsewhere.
pub fn display_path(path: &str, session_cwd: &str) -> (shown: String)
    ensures
        shown@ == match stripped(path@, session_cwd@) {
            Some(rest) => rest,
            None => path@,
        },
{
    if !path_starts_with(path, session_cwd) {
        return path.to_owned();
    }
    let count: usize = components(session_cwd).len();
    proof {
        assert(parts_of(session_cwd@).len() == count);
    }
    let chars: Vec<char> = characters(path);
    if !absolute(session_cwd) && count == 0 {
        let mut rest: Vec<char> = chars;
        let keep: usize = start_of_names(&rest);
        trim_back(&mut rest, keep);
        return text_of(&rest);
    }
    let after: usize = skip_parts(&chars, count);
    let start: usize = skip_front(&chars, after);
    proof {
        assert(path@.subrange(start as int, path@.len() as int) =~= path@.skip(start as int));
    }
    let mut rest: Vec<char> = characters(path.substring_char(start, chars.len()));
    trim_back(&mut rest, 0);
    text_of(&rest)
}

/// The directory that a path lies in; nothing where it has no name.
pub open spec fn parent_of(path: Seq<char>) -> Option<Seq<char>> {
    let keep = names_start(path);
    let trimmed = trimmed_back(path, keep);
    if trimmed.len() > keep {
        Some(trimmed_back(without_last_name(trimmed, keep), keep))
    } else if keep == 1 && !is_absolute(path) {
        Some(Seq::empty())
    } else {
        None
    }
}

/// The directory that a path lies in; nothing where it has no name.
pub fn parent(path: &str) -> (directory: Option<String>)
    ensures
        match directory {
            Some(directory) => parent_of(path@) == Some(directory@),
            None => parent_of(path@) is None,
        },
{
    let mut chars: Vec<char> = characters(path);
    let keep: usize = start_of_names(&chars);
    trim_back(&mut chars, keep);
    if chars.len() > keep {
        let start: usize = find_last_name(&chars, keep);
        drop_last_name(&mut chars, keep, start);
        trim_back(&mut chars, keep);
        Some(text_of(&chars))
    } else if keep == 1 && !absolute(path) {
        Some(String::new())
    } else {
        None
    }
}

proof fn lemma_parts_split(first: Seq<char>, second: Seq<char>, leading: bool)
    ensures
        parts_from(first + seq!['/'] + second, leading) == parts_from(first, leading) + parts_from(
            second,
            false,
        ),
    decreases first.len(),
{
    let text = first + seq!['/'] + second;
    let length = name_length(first);
    lemma_name_length(first);
    assert forall|i: int| 0 <= i < length implies #[trigger] text[i] != '/' by {
        assert(text[i] == first[i]);
    }
    assert(text[length] == '/');
    lemma_name_length_is(text, length);
    assert(text.take(length) =~= first.take(length));
    let later = parts_from(second, false);
    if first.len() == 0 {
        assert(after_name(text) =~= second);
        assert(parts_from(first, leading) + later =~= later);
    } else if length < first.len() {
        let rest = after_name(first);
        assert(after_name(text) =~= rest + seq!['/'] + second);
        lemma_parts_split(rest, second, false);
        let name = seq![first.take(length)];
        assert(name + (parts_from(rest, false) + later) =~= (name + parts_from(rest, false)) + later);
    } else {
        assert(after_name(text) =~= second);
        assert(after_name(first) =~= Seq::<char>::empty());
        let name = seq![first.take(length)];
        let nothing = Seq::<Seq<char>>::empty();
        assert(parts_from(Seq::<char>::empty(), false) =~= nothing);
        assert((name + nothing) + later =~= name + later);
        assert(nothing + later =~= later);
    }
}

/// A path that begins at the root is taken as it is; any other is taken below the working directory, and lies
/// in it: it has the parts of the directory and then its own.
pub proof fn law_relative_paths_lie_below(directory: Seq<char>, path: Seq<char>)
    ensures
        path.len() > 0 && path[0] == '/' ==> resolved(directory, path) == path,
        !(path.len() > 0 && path[0] == '/') ==> {
            let full = resolved(directory, path);
            &&& starts_with(full, directory)
            &&& directory.len() > 0 ==> parts_of(full) == parts_of(directory) + parts_from(path, false)
            &&& directory.len() > 0 ==> is_absolute(full) == is_absolute(directory)
            &&& directory.len() == 0 ==> full == path
            &&& directory.len() > 0 && directory.last() == '/' ==> full == directory + path
            &&& directory.len() > 0 && directory.last() != '/' ==> full == directory + seq!['/'] + path
        },
{
    if !is_absolute(path) {
        let full = resolved(directory, path);
        let nothing = Seq::<char>::empty();
        let leading = !is_absolute(directory);
        if directory.len() == 0 {
            assert(full =~= path);
            assert(parts_of(directory).len() == 0);
        } else {
            assert(full[0] == directory[0]);
            let base = if directory.last() == '/' {
                directory.drop_last()
            } else {
                directory
            };
            assert(full =~= base + seq!['/'] + path);
            lemma_parts_split(base, path, leading);
            if directory.last() == '/' {
                assert(directory =~= base + seq!['/'] + nothing);
                lemma_parts_split(base, nothing, leading);
                assert(parts_from(nothing, false) =~= Seq::<Seq<char>>::empty());
                assert(parts_from(base, leading) + Seq::<Seq<char>>::empty() =~= parts_from(
                    base,
                    leading,
                ));
            }
            let all = parts_of(full);
            let below = parts_of(directory);
            assert(all == below + parts_from(path, false));
            assert(below =~= all.subrange(0, below.len() as int));
        }
    }
}

/// To lie in a directory is to have all its parts at the front, whole: every path lies in itself, what lies in
/// a directory lies in all that this one lies in, and a path that differs in one of the parts does not.
pub proof fn law_paths_lie_in_directories(path: Seq<char>, base: Seq<char>, top: Seq<char>, i: int)
    requires
        is_absolute(path) && is_absolute(base) && is_absolute(top),
    ensures
        starts_with(path, path),
        starts_with(path, base) && starts_with(base, top) ==> starts_with(path, top),
        parts_of(path).len() < parts_of(base).len() ==> !starts_with(path, base),
        0 <= i < parts_of(base).len() && i < parts_of(path).len() && parts_of(path)[i]
            != parts_of(base)[i] ==> !starts_with(path, base),
{
    let (all, some, few) = (parts_of(path), parts_of(base), parts_of(top));
    assert(all =~= all.subrange(0, all.len() as int));
    if starts_with(path, base) {
        assert(some == all.subrange(0, some.len() as int));
        if 0 <= i < some.len() {
            assert(some[i] == all[i]);
        }
        if starts_with(base, top) {
            assert(few == some.subrange(0, few.len() as int));
            assert(few =~= all.subrange(0, few.len() as int));
        }
    }
}

/// A command may write to the directory in which it runs beside those of the session exactly if it lies in
/// none of these.
pub proof fn law_the_working_directory_is_added_once(roots: Seq<Seq<char>>, directory: Seq<char>)
    ensures
        (exists|i: int| 0 <= i < roots.len() && starts_with(directory, #[trigger] roots[i]))
            ==> allowed_roots(roots, directory) == roots,
        !(exists|i: int| 0 <= i < roots.len() && starts_with(directory, #[trigger] roots[i]))
            ==> allowed_roots(roots, directory) == roots.push(directory),
{
}

} // verus!
