//! What the user of a session permits, and the commands that change it.
use vstd::prelude::*;

use crate::lines::{is_white_space, white_space};
use crate::text::{characters, same_text, texts_view};

verus! {

/// How many characters stand before the first white space.
pub open spec fn word_length(text: Seq<char>) -> int
    decreases text.len(),
{
    if text.len() == 0 || is_white_space(text[0]) {
        0
    } else {
        1 + word_length(text.drop_first())
    }
}

/// The words of a text, which white space parts.
pub open spec fn words_of(text: Seq<char>) -> Seq<Seq<char>>
    decreases text.len(),
    via words_shrink
{
    if text.len() == 0 {
        Seq::empty()
    } else if word_length(text) == 0 {
        words_of(text.drop_first())
    } else {
        seq![text.take(word_length(text))] + words_of(text.skip(word_length(text)))
    }
}

#[via_fn]
proof fn words_shrink(text: Seq<char>) {
    lemma_word_length(text);
}

proof fn lemma_word_length(text: Seq<char>)
    ensures
        0 <= word_length(text) <= text.len(),
    decreases text.len(),
{
    if text.len() > 0 && !is_white_space(text[0]) {
        lemma_word_length(text.drop_first());
    }
}

proof fn lemma_word_length_is(text: Seq<char>, length: int)
    requires
        0 <= length <= text.len(),
        forall|i: int| 0 <= i < length ==> !is_white_space(#[trigger] text[i]),
        length < text.len() ==> is_white_space(text[length]),
    ensures
        word_length(text) == length,
    decreases text.len(),
{
    if length > 0 {
        assert(!is_white_space(text[0]));
        let rest = text.drop_first();
        assert forall|i: int| 0 <= i < length - 1 implies !is_white_space(#[trigger] rest[i]) by {
            assert(rest[i] == text[i + 1]);
        }
        lemma_word_length_is(rest, length - 1);
    }
}

/// The words of a text.
pub fn split_words(text: &str) -> (words: Vec<String>)
    ensures
        texts_view(words@) == words_of(text@),
{
    let chars: Vec<char> = characters(text);
    let mut words: Vec<String> = Vec::new();
    let mut start: usize = 0;
    proof {
        assert(text@.skip(0) =~= text@);
        assert(texts_view(words@) + words_of(text@) =~= words_of(text@));
    }
    while start < chars.len()
        invariant
            chars@ == text@,
            start <= text@.len(),
            texts_view(words@) + words_of(text@.skip(start as int)) == words_of(text@),
        decreases text@.len() - start,
    {
        let ghost rest = text@.skip(start as int);
        let ghost before = texts_view(words@);
        let mut end: usize = start;
        while end < chars.len() && !white_space(chars[end])
            invariant
                chars@ == text@,
                start <= end <= text@.len(),
                forall|i: int| start <= i < end ==> !is_white_space(#[trigger] text@[i]),
            decreases text@.len() - end,
        {
            end = end + 1;
        }
        proof {
            assert forall|i: int| 0 <= i < end - start implies !is_white_space(#[trigger] rest[i]) by {
                assert(rest[i] == text@[start + i]);
            }
            lemma_word_length_is(rest, end - start);
        }
        if end == start {
            proof {
                assert(rest.drop_first() =~= text@.skip(start + 1));
            }
            start = start + 1;
        } else {
            let word: String = text.substring_char(start, end).to_owned();
            proof {
                assert(rest.take(end - start) =~= word@);
                assert(rest.skip(end - start) =~= text@.skip(end as int));
                assert(texts_view(words@.push(word)) =~= before.push(word@));
                assert(before + (seq![word@] + words_of(text@.skip(end as int))) =~= before.push(word@)
                    + words_of(text@.skip(end as int)));
            }
            words.push(word);
            start = end;
        }
    }
    proof {
        assert(text@.skip(start as int) =~= Seq::<char>::empty());
        assert(texts_view(words@) + Seq::<Seq<char>>::empty() =~= texts_view(words@));
    }
    words
}

/// A command by which the user of a session changes or shows what is permitted.
#[derive(Debug, PartialEq, Eq)]
pub enum PermissionCommand {
    /// Ask before each command that runs on the host.
    Ask,
    /// Allow every command that runs on the host.
    Yolo,
    /// Let commands write to one more directory.
    Allow(String),
    /// Let commands write to a directory no more.
    Revoke(String),
    /// Show the directories that commands may write to.
    List,
    /// Show whether the user is asked.
    Status,
}

/// A command by which the user of a session changes or shows what is permitted.
pub enum PermissionView {
    Ask,
    Yolo,
    Allow(Seq<char>),
    Revoke(Seq<char>),
    List,
    Status,
}

impl View for PermissionCommand {
    type V = PermissionView;

    open spec fn view(&self) -> PermissionView {
        match self {
            PermissionCommand::Ask => PermissionView::Ask,
            PermissionCommand::Yolo => PermissionView::Yolo,
            PermissionCommand::Allow(directory) => PermissionView::Allow(directory@),
            PermissionCommand::Revoke(directory) => PermissionView::Revoke(directory@),
            PermissionCommand::List => PermissionView::List,
            PermissionCommand::Status => PermissionView::Status,
        }
    }
}

/// The command that words stand for; nothing where they stand for none.
pub open spec fn command_in(words: Seq<Seq<char>>) -> Option<PermissionView> {
    if words.len() < 2 || (words[0] != "/permission"@ && words[0] != "/permissions"@) {
        None
    } else if words.len() == 2 {
        if words[1] == "ask"@ {
            Some(PermissionView::Ask)
        } else if words[1] == "yolo"@ {
            Some(PermissionView::Yolo)
        } else if words[1] == "list"@ {
            Some(PermissionView::List)
        } else if words[1] == "status"@ {
            Some(PermissionView::Status)
        } else {
            None
        }
    } else if words.len() == 3 {
        if words[1] == "allow"@ {
            Some(PermissionView::Allow(words[2]))
        } else if words[1] == "revoke"@ {
            Some(PermissionView::Revoke(words[2]))
        } else {
            None
        }
    } else {
        None
    }
}

impl PermissionCommand {
    /// Reads a line that the user of a session has typed.
    pub fn parse(line: &str) -> (command: Option<PermissionCommand>)
        ensures
            match command {
                Some(command) => command_in(words_of(line@)) == Some(command@),
                None => command_in(words_of(line@)) is None,
            },
    {
        let words: Vec<String> = split_words(line);
        let ghost views = texts_view(words@);
        proof {
            assert forall|i: int| 0 <= i < words@.len() implies #[trigger] views[i] == words@[i]@ by {}
            assert(views.len() == words@.len());
        }
        if words.len() < 2 || (!same_text(words[0].as_str(), "/permission") && !same_text(
            words[0].as_str(),
            "/permissions",
        )) {
            None
        } else if words.len() == 2 {
            if same_text(words[1].as_str(), "ask") {
                Some(PermissionCommand::Ask)
            } else if same_text(words[1].as_str(), "yolo") {
                Some(PermissionCommand::Yolo)
            } else if same_text(words[1].as_str(), "list") {
                Some(PermissionCommand::List)
            } else if same_text(words[1].as_str(), "status") {
                Some(PermissionCommand::Status)
            } else {
                None
            }
        } else if words.len() == 3 {
            if same_text(words[1].as_str(), "allow") {
                Some(PermissionCommand::Allow(words[2].clone()))
            } else if same_text(words[1].as_str(), "revoke") {
                Some(PermissionCommand::Revoke(words[2].clone()))
            } else {
                None
            }
        } else {
            None
        }
    }
}

/// White space parts words and nothing else does: the words of two texts with white space between them are
/// those of the first and then those of the second, and a text without white space is one word.
pub proof fn law_white_space_parts_words(first: Seq<char>, between: char, second: Seq<char>)
    ensures
        is_white_space(between) ==> words_of(first + seq![between] + second) == words_of(first) + words_of(
            second,
        ),
        first.len() > 0 && (forall|i: int| 0 <= i < first.len() ==> !is_white_space(#[trigger] first[i]))
            ==> words_of(first) == seq![first],
        words_of(Seq::<char>::empty()).len() == 0,
    decreases first.len(),
{
    let nothing = Seq::<char>::empty();
    let text = first + seq![between] + second;
    lemma_word_length(first);
    lemma_word_end(first);
    if is_white_space(between) {
        if first.len() == 0 {
            assert(text[0] == between);
            assert(text.drop_first() =~= second);
            assert(words_of(first) + words_of(second) =~= words_of(second));
        } else if is_white_space(first[0]) {
            assert(text[0] == first[0]);
            assert(text.drop_first() =~= first.drop_first() + seq![between] + second);
            law_white_space_parts_words(first.drop_first(), between, second);
        } else {
            let length = word_length(first);
            assert(length > 0);
            assert forall|i: int| 0 <= i < length implies !is_white_space(#[trigger] text[i]) by {
                assert(text[i] == first[i]);
            }
            assert(is_white_space(text[length]));
            lemma_word_length_is(text, length);
            let rest = first.skip(length);
            assert(text.take(length) =~= first.take(length));
            assert(text.skip(length) =~= rest + seq![between] + second);
            law_white_space_parts_words(rest, between, second);
            let word = seq![first.take(length)];
            assert(word + (words_of(rest) + words_of(second)) =~= (word + words_of(rest)) + words_of(
                second,
            ));
        }
    }
    if first.len() > 0 && (forall|i: int|
        0 <= i < first.len() ==> !is_white_space(#[trigger] first[i])) {
        lemma_word_length_is(first, first.len() as int);
        assert(first.take(first.len() as int) =~= first);
        assert(first.skip(first.len() as int) =~= nothing);
        assert(words_of(nothing) =~= Seq::<Seq<char>>::empty());
        assert(seq![first] + words_of(nothing) =~= seq![first]);
    }
}

proof fn lemma_word_end(text: Seq<char>)
    ensures
        forall|i: int| 0 <= i < word_length(text) ==> !is_white_space(#[trigger] text[i]),
        word_length(text) < text.len() ==> is_white_space(text[word_length(text)]),
    decreases text.len(),
{
    if text.len() > 0 && !is_white_space(text[0]) {
        let rest = text.drop_first();
        lemma_word_end(rest);
        lemma_word_length(rest);
        assert forall|i: int| 0 <= i < word_length(text) implies !is_white_space(#[trigger] text[i]) by {
            if i > 0 {
                assert(rest[i - 1] == text[i]);
            }
        }
    }
}

/// What is permitted changes only by what the user has typed: every call is allowed only by `yolo`, a
/// directory only by `allow` with that directory, and taken back only by `revoke` with it; and each command
/// is read under both spellings.
pub proof fn law_permissions_are_typed(words: Seq<Seq<char>>)
    ensures
        ({
            let spelled = words.len() >= 2 && (words[0] == "/permission"@ || words[0]
                == "/permissions"@);
            let alone = spelled && words.len() == 2;
            let with_one = spelled && words.len() == 3;
            &&& command_in(words) is Some <==> (alone && (words[1] == "ask"@ || words[1] == "yolo"@
                || words[1] == "list"@ || words[1] == "status"@)) || (with_one && (words[1] == "allow"@
                || words[1] == "revoke"@))
            &&& command_in(words) == Some(PermissionView::Ask) <==> alone && words[1] == "ask"@
            &&& command_in(words) == Some(PermissionView::Yolo) <==> alone && words[1] == "yolo"@
            &&& command_in(words) == Some(PermissionView::List) <==> alone && words[1] == "list"@
            &&& command_in(words) == Some(PermissionView::Status) <==> alone && words[1] == "status"@
            &&& command_in(words) matches Some(PermissionView::Allow(directory)) ==> with_one && words[1]
                == "allow"@ && directory == words[2]
            &&& command_in(words) matches Some(PermissionView::Revoke(directory)) ==> with_one && words[1]
                == "revoke"@ && directory == words[2]
            &&& with_one && words[1] == "allow"@ ==> command_in(words) == Some(
                PermissionView::Allow(words[2]),
            )
            &&& with_one && words[1] == "revoke"@ ==> command_in(words) == Some(
                PermissionView::Revoke(words[2]),
            )
        }),
{
    reveal_strlit("ask");
    reveal_strlit("yolo");
    reveal_strlit("list");
    reveal_strlit("status");
    reveal_strlit("allow");
    reveal_strlit("revoke");
    assert("ask"@.len() == 3 && "yolo"@.len() == 4 && "list"@.len() == 4 && "status"@.len() == 6);
    assert("yolo"@[0] == 'y' && "list"@[0] == 'l' && "allow"@.len() == 5 && "revoke"@.len() == 6);
}

} // verus!
