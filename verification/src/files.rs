//! Directories that are listed, and files that are written.
use vstd::prelude::*;

use crate::activity::concat;
use crate::sandbox::{Output, Termination};
use crate::text::{
    is_text_before, join_texts, joined, lemma_text_before_irreflexive, lemma_text_before_transitive,
    text_before, texts_view,
};

verus! {

/// An entry of a directory.
#[derive(Debug)]
pub struct DirectoryEntry {
    pub name: String,
    pub is_directory: bool,
}

/// An entry as it is listed: its name, with a separator behind it where it is a directory.
pub open spec fn listed_name(entry: DirectoryEntry) -> Seq<char> {
    if entry.is_directory {
        entry.name@ + "/"@
    } else {
        entry.name@
    }
}

/// The entries of a directory as they are listed.
pub open spec fn listed_names(entries: Seq<DirectoryEntry>) -> Seq<Seq<char>> {
    Seq::new(entries.len(), |i: int| listed_name(entries[i]))
}

/// Names in order with one more, behind those that do not stand after it.
pub open spec fn inserted(names: Seq<Seq<char>>, name: Seq<char>) -> Seq<Seq<char>>
    decreases names.len(),
{
    if names.len() == 0 || text_before(name, names[0]) {
        seq![name] + names
    } else {
        seq![names[0]] + inserted(names.drop_first(), name)
    }
}

/// Names in order.
pub open spec fn sorted_names(names: Seq<Seq<char>>) -> Seq<Seq<char>>
    decreases names.len(),
{
    if names.len() == 0 {
        Seq::empty()
    } else {
        inserted(sorted_names(names.drop_last()), names.last())
    }
}

proof fn lemma_inserted_at(names: Seq<Seq<char>>, name: Seq<char>, place: int)
    requires
        0 <= place <= names.len(),
        forall|i: int| 0 <= i < place ==> !text_before(name, #[trigger] names[i]),
        place < names.len() ==> text_before(name, names[place]),
    ensures
        inserted(names, name) == names.insert(place, name),
    decreases names.len(),
{
    if place == 0 {
        assert(seq![name] + names =~= names.insert(0, name));
    } else {
        assert(!text_before(name, names[0]));
        let rest = names.drop_first();
        assert forall|i: int| 0 <= i < place - 1 implies !text_before(name, #[trigger] rest[i]) by {
            assert(rest[i] == names[i + 1]);
        }
        lemma_inserted_at(rest, name, place - 1);
        assert(seq![names[0]] + rest.insert(place - 1, name) =~= names.insert(place, name));
    }
}

/// Whether no name stands behind one that it should stand before.
pub open spec fn in_order(names: Seq<Seq<char>>) -> bool {
    forall|i: int, j: int|
        0 <= i < j < names.len() ==> !text_before(#[trigger] names[j], #[trigger] names[i])
}

proof fn lemma_place(names: Seq<Seq<char>>, name: Seq<char>) -> (place: int)
    ensures
        0 <= place <= names.len(),
        forall|i: int| 0 <= i < place ==> !text_before(name, #[trigger] names[i]),
        place < names.len() ==> text_before(name, names[place]),
    decreases names.len(),
{
    if names.len() == 0 || text_before(name, names[0]) {
        0
    } else {
        let rest = names.drop_first();
        let place = 1 + lemma_place(rest, name);
        assert forall|i: int| 0 <= i < place implies !text_before(name, #[trigger] names[i]) by {
            if i > 0 {
                assert(names[i] == rest[i - 1]);
            }
        }
        place
    }
}

proof fn lemma_inserted(names: Seq<Seq<char>>, name: Seq<char>)
    requires
        in_order(names),
    ensures
        in_order(inserted(names, name)),
        inserted(names, name).to_multiset() == names.to_multiset().insert(name),
{
    broadcast use vstd::seq_lib::group_to_multiset_ensures;

    let place = lemma_place(names, name);
    lemma_inserted_at(names, name, place);
    let all = names.insert(place, name);
    assert forall|i: int, j: int| 0 <= i < j < all.len() implies !text_before(
        #[trigger] all[j],
        #[trigger] all[i],
    ) by {
        if i == place {
            assert(all[j] == names[j - 1]);
            if text_before(names[j - 1], name) {
                lemma_text_before_transitive(names[j - 1], name, names[place]);
                lemma_text_before_irreflexive(names[place]);
            }
        } else if j == place {
            assert(all[i] == names[i]);
        } else {
            assert(all[i] == names[if i < place {
                i
            } else {
                i - 1
            }]);
            assert(all[j] == names[if j < place {
                j
            } else {
                j - 1
            }]);
        }
    }
    assert(all.remove(place) =~= names);
    assert(all[place] == name);
    assert(all.contains(name));
    assert(all.to_multiset().count(name) > 0);
    assert(all.remove(place).to_multiset() == all.to_multiset().remove(name));
    assert(all.to_multiset() =~= names.to_multiset().insert(name));
}

/// A directory is listed in order, each entry once.
pub proof fn law_listings_are_sorted(names: Seq<Seq<char>>)
    ensures
        in_order(sorted_names(names)),
        sorted_names(names).to_multiset() == names.to_multiset(),
    decreases names.len(),
{
    broadcast use vstd::seq_lib::group_to_multiset_ensures;

    if names.len() > 0 {
        let front = names.drop_last();
        law_listings_are_sorted(front);
        lemma_inserted(sorted_names(front), names.last());
        assert(front.push(names.last()) =~= names);
    }
}

fn insert_name(names: &mut Vec<String>, name: String)
    ensures
        texts_view(final(names)@) == inserted(texts_view(old(names)@), name@),
{
    let ghost before = texts_view(names@);
    let mut place: usize = 0;
    while place < names.len() && !is_text_before(name.as_str(), names[place].as_str())
        invariant
            before == texts_view(names@),
            names@ == old(names)@,
            place <= names@.len(),
            forall|i: int| 0 <= i < place ==> !text_before(name@, #[trigger] before[i]),
        decreases names@.len() - place,
    {
        place = place + 1;
    }
    proof {
        lemma_inserted_at(before, name@, place as int);
        assert(texts_view(names@.insert(place as int, name)) =~= before.insert(place as int, name@));
    }
    names.insert(place, name);
}

/// The entries of a directory, in order, each on a line.
pub fn list_directory(entries: &Vec<DirectoryEntry>) -> (text: String)
    ensures
        text@ == joined(sorted_names(listed_names(entries@)), "\n"@),
{
    let ghost all = listed_names(entries@);
    let mut names: Vec<String> = Vec::new();
    let mut index: usize = 0;
    proof {
        assert(all.take(0) =~= Seq::<Seq<char>>::empty());
        assert(texts_view(names@) =~= Seq::<Seq<char>>::empty());
    }
    while index < entries.len()
        invariant
            all == listed_names(entries@),
            index <= entries@.len(),
            texts_view(names@) == sorted_names(all.take(index as int)),
        decreases entries@.len() - index,
    {
        let name: String = if entries[index].is_directory {
            concat(entries[index].name.as_str(), "/")
        } else {
            entries[index].name.clone()
        };
        proof {
            assert(all.take(index + 1).drop_last() =~= all.take(index as int));
            assert(all.take(index + 1).last() == name@);
        }
        insert_name(&mut names, name);
        index = index + 1;
    }
    proof {
        assert(all.take(index as int) =~= all);
    }
    join_texts(&names, "\n")
}

/// The command that writes what it reads to a file.
pub open spec fn writing_command(path: Seq<char>) -> Seq<Seq<char>> {
    seq!["sh"@, "-c"@, "cat > \"$1\""@, "local-mcp-write"@, path]
}

/// The command that writes what it reads to a file.
pub fn write_command(path: &str) -> (command: Vec<String>)
    ensures
        texts_view(command@) == writing_command(path@),
{
    let command: Vec<String> = vec![
        "sh".to_owned(),
        "-c".to_owned(),
        "cat > \"$1\"".to_owned(),
        "local-mcp-write".to_owned(),
        path.to_owned(),
    ];
    proof {
        assert(texts_view(command@) =~= writing_command(path@));
    }
    command
}

/// The command by which a file is written in the sandbox; none on Windows, which has no sandbox and
/// where the file is written directly.
pub fn write_plan(path: &str, windows: bool) -> (plan: Option<Vec<String>>)
    ensures
        match plan {
            Some(command) => !windows && texts_view(command@) == writing_command(path@),
            None => windows,
        },
{
    if windows {
        None
    } else {
        Some(write_command(path))
    }
}

/// What is told of a file that was written directly: that nothing went wrong.
pub fn written_output() -> (output: Output)
    ensures
        output.status == 0 && output.stdout@.len() == 0 && output.stderr@.len() == 0,
        output.termination is Exited,
{
    Output {
        status: 0,
        stdout: String::new(),
        stderr: String::new(),
        termination: Termination::Exited,
    }
}

/// A directory is told from a file by the separator behind its name.
pub proof fn law_directories_are_marked(entry: DirectoryEntry)
    ensures
        entry.is_directory ==> listed_name(entry) == entry.name@.push('/'),
        !entry.is_directory ==> listed_name(entry) == entry.name@,
{
    reveal_strlit("/");
    assert(entry.name@ + "/"@ =~= entry.name@.push('/'));
}

/// A file is written by a command that is given its path as one argument of its own, so that nothing in the
/// path is taken for a part of the command.
pub proof fn law_paths_are_arguments(first: Seq<char>, second: Seq<char>)
    ensures
        writing_command(first).len() == 5,
        writing_command(first)[4] == first,
        forall|i: int|
            0 <= i < 4 ==> #[trigger] writing_command(first)[i] == writing_command(second)[i],
{
}

} // verus!
