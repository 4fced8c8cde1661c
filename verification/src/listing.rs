//! Which agents and skills there are.
use vstd::prelude::*;

use crate::text::{chars_of, contains_text};

verus! {

/// An entry of a directory that may define an agent or a skill.
#[derive(Clone, Debug)]
pub enum Entry {
    /// A file, by its name.
    File(String),
    /// A folder that holds a `SKILL.md`, by its name.
    Folder(String),
}

/// The name that an entry defines: a folder's own, and a file's without its `.md`. Other files
/// define nothing.
pub open spec fn defined_name(entry: Entry) -> Option<Seq<char>> {
    match entry {
        Entry::Folder(name) => Some(name@),
        Entry::File(name) => {
            let n = name@.len() as int;
            if n > 3 && name@.skip(n - 3) == seq!['.', 'm', 'd'] {
                Some(name@.take(n - 3))
            } else {
                None
            }
        },
    }
}

/// The names that entries define, each once, in order of first appearance.
pub open spec fn defined_names(entries: Seq<Entry>) -> Seq<Seq<char>>
    decreases entries.len(),
{
    if entries.len() == 0 {
        seq![]
    } else {
        with_name(defined_names(entries.drop_last()), entries.last())
    }
}

/// Reads the name that an entry defines.
fn name_of(entry: &Entry) -> (name: Option<String>)
    ensures
        crate::text::opt_view(name) == defined_name(*entry),
{
    match entry {
        Entry::Folder(name) => Some(name.clone()),
        Entry::File(name) => {
            let chars = chars_of(name.as_str());
            let n = chars.len();
            if n > 3 {
                let ghost ending = name@.skip(n - 3);
                assert(ending == seq![name@[n - 3], name@[n - 2], name@[n - 1]]);
                if chars[n - 3] == '.' && chars[n - 2] == 'm' && chars[n - 1] == 'd' {
                    return Some(name.as_str().substring_char(0, n - 3).to_owned());
                }
                assert(ending != seq!['.', 'm', 'd']) by {
                    if ending == seq!['.', 'm', 'd'] {
                        assert(ending[0] == '.' && ending[1] == 'm' && ending[2] == 'd');
                    }
                }
            }
            None
        },
    }
}

/// The names with that of one entry more, unless they hold it already.
pub open spec fn with_name(names: Seq<Seq<char>>, entry: Entry) -> Seq<Seq<char>> {
    match defined_name(entry) {
        Some(name) => if names.contains(name) {
            names
        } else {
            names.push(name)
        },
        None => names,
    }
}

/// Adds the name that an entry defines, unless it is there already.
fn push_name(names: &mut Vec<String>, entry: &Entry)
    ensures
        crate::text::views(final(names)@) == with_name(crate::text::views(old(names)@), *entry),
{
    let ghost before = names@;
    match name_of(entry) {
        Some(name) => if !contains_text(names, name.as_str()) {
            names.push(name);
            assert(crate::text::views(names@) == crate::text::views(before).push(name@));
        },
        None => {},
    }
}

/// Lists the names that entries define. The entries come in the order of the search, so a name
/// stands where it would be found.
pub fn list_names(entries: &Vec<Entry>) -> (names: Vec<String>)
    ensures
        crate::text::views(names@) == defined_names(entries@),
{
    let mut names: Vec<String> = Vec::new();
    let mut i: usize = 0;
    assert(crate::text::views(names@) == defined_names(entries@.take(0)));
    while i < entries.len()
        invariant
            i <= entries@.len(),
            crate::text::views(names@) == defined_names(entries@.take(i as int)),
        decreases entries@.len() - i,
    {
        let ghost next = entries@.take(i + 1);
        assert(next.drop_last() == entries@.take(i as int));
        assert(next.last() == entries@[i as int]);
        push_name(&mut names, &entries[i]);
        i = i + 1;
    }
    assert(entries@.take(i as int) == entries@);
    names
}

/// The files among entries.
pub open spec fn files_of(entries: Seq<Entry>) -> Seq<Entry> {
    entries.filter(|entry: Entry| entry is File)
}

/// Lists the names of the agents that entries define. A folder defines a skill, not an agent.
pub fn list_agent_names(entries: &Vec<Entry>) -> (names: Vec<String>)
    ensures
        crate::text::views(names@) == defined_names(files_of(entries@)),
{
    let ghost is_file = |entry: Entry| entry is File;
    let mut names: Vec<String> = Vec::new();
    let mut i: usize = 0;
    proof {
        reveal(Seq::filter);
        assert(entries@.take(0).filter(is_file) == Seq::<Entry>::empty());
        assert(crate::text::views(names@) == defined_names(entries@.take(0).filter(is_file)));
    }
    while i < entries.len()
        invariant
            i <= entries@.len(),
            is_file == (|entry: Entry| entry is File),
            crate::text::views(names@) == defined_names(entries@.take(i as int).filter(is_file)),
        decreases entries@.len() - i,
    {
        let ghost next = entries@.take(i + 1);
        let ghost earlier = entries@.take(i as int).filter(is_file);
        proof {
            reveal(Seq::filter);
            assert(next.drop_last() == entries@.take(i as int));
            assert(next.last() == entries@[i as int]);
            assert(earlier.push(entries@[i as int]).drop_last() == earlier);
        }
        match &entries[i] {
            Entry::File(_) => {
                push_name(&mut names, &entries[i]);
            },
            Entry::Folder(_) => {},
        }
        i = i + 1;
    }
    assert(entries@.take(i as int) == entries@);
    names
}

// --- laws ---

/// A listing names each definition, and no name twice.
pub proof fn law_listing_is_complete_and_distinct(entries: Seq<Entry>)
    ensures
        defined_names(entries).no_duplicates(),
        forall|i: int|
            0 <= i < entries.len() && defined_name(#[trigger] entries[i]) is Some
                ==> defined_names(entries).contains(defined_name(entries[i])->0),
        forall|k: int|
            0 <= k < defined_names(entries).len() ==> exists|i: int|
                0 <= i < entries.len() && defined_name(#[trigger] entries[i]) == Some(
                    #[trigger] defined_names(entries)[k],
                ),
    decreases entries.len(),
{
    if entries.len() > 0 {
        let shorter = entries.drop_last();
        let before = defined_names(shorter);
        let names = defined_names(entries);
        law_listing_is_complete_and_distinct(shorter);
        let last = entries.last();
        assert forall|i: int|
            0 <= i < entries.len() && defined_name(
                #[trigger] entries[i],
            ) is Some implies names.contains(defined_name(entries[i])->0) by {
            let name = defined_name(entries[i])->0;
            if i < shorter.len() {
                assert(shorter[i] == entries[i]);
                assert(before.contains(name));
                let k = choose|k: int| 0 <= k < before.len() && before[k] == name;
                assert(names[k] == name);
            } else if !before.contains(name) {
                assert(names[before.len() as int] == name);
            }
        }
        assert forall|k: int| 0 <= k < names.len() implies exists|i: int|
            0 <= i < entries.len() && defined_name(#[trigger] entries[i]) == Some(
                #[trigger] names[k],
            ) by {
            if k < before.len() {
                assert(names[k] == before[k]);
                let i = choose|i: int|
                    0 <= i < shorter.len() && defined_name(#[trigger] shorter[i]) == Some(
                        before[k],
                    );
                assert(shorter[i] == entries[i]);
            } else {
                assert(defined_name(entries[entries.len() - 1]) == Some(names[k]));
            }
        }
    }
}

/// The files among entries are entries.
proof fn lemma_file_is_an_entry(entries: Seq<Entry>, j: int)
    requires
        0 <= j < files_of(entries).len(),
    ensures
        entries.contains(files_of(entries)[j]),
    decreases entries.len(),
{
    reveal(Seq::filter);
    if entries.len() > 0 {
        let shorter = entries.drop_last();
        let file = files_of(entries)[j];
        if j < files_of(shorter).len() {
            lemma_file_is_an_entry(shorter, j);
            let i = choose|i: int| 0 <= i < shorter.len() && shorter[i] == file;
            assert(entries[i] == file);
        } else {
            assert(entries[entries.len() - 1] == file);
        }
    }
}

/// A listing of agents names each file's agent, and nothing that no file defines.
pub proof fn law_agents_are_files(entries: Seq<Entry>, name: Seq<char>)
    ensures
        defined_names(files_of(entries)).contains(name) <==> exists|i: int|
            0 <= i < entries.len() && entries[i] is File && defined_name(#[trigger] entries[i])
                == Some(name),
{
    let files = files_of(entries);
    let names = defined_names(files);
    let is_file = |entry: Entry| entry is File;
    law_listing_is_complete_and_distinct(files);
    if names.contains(name) {
        let k = choose|k: int| 0 <= k < names.len() && names[k] == name;
        let j = choose|j: int|
            0 <= j < files.len() && defined_name(#[trigger] files[j]) == Some(names[k]);
        entries.lemma_filter_pred(is_file, j);
        lemma_file_is_an_entry(entries, j);
        let i = choose|i: int| 0 <= i < entries.len() && entries[i] == files[j];
        assert(defined_name(entries[i]) == Some(name));
    }
    if exists|i: int|
        0 <= i < entries.len() && entries[i] is File && defined_name(#[trigger] entries[i]) == Some(
            name,
        ) {
        let i = choose|i: int|
            0 <= i < entries.len() && entries[i] is File && defined_name(#[trigger] entries[i])
                == Some(name);
        entries.lemma_filter_contains(is_file, i);
        let j = choose|j: int| 0 <= j < files.len() && files[j] == entries[i];
        assert(defined_name(files[j]) is Some);
    }
}

/// A folder defines its own name, and a file what stands before the `.md` at its end, if there
/// is anything.
pub proof fn law_what_an_entry_defines(name: String, stem: Seq<char>)
    ensures
        defined_name(Entry::Folder(name)) == Some(name@),
        defined_name(Entry::File(name)) == Some(stem) <==> stem.len() > 0 && name@ == stem + ".md"@,
{
    reveal_strlit(".md");
    let n = name@.len() as int;
    let ending = seq!['.', 'm', 'd'];
    assert(".md"@ == ending);
    if defined_name(Entry::File(name)) == Some(stem) {
        assert(name@ == name@.take(n - 3) + name@.skip(n - 3));
    }
    if stem.len() > 0 && name@ == stem + ending {
        assert((stem + ending).skip(n - 3) == ending);
        assert((stem + ending).take(n - 3) == stem);
    }
}

/// What one entry more does to a listing: a new name comes last, and a name that is there
/// already is not repeated. Folders do not count among the agents.
pub proof fn law_listing_with_one_entry_more(entries: Seq<Entry>, entry: Entry, name: String)
    ensures
        defined_names(seq![]) == Seq::<Seq<char>>::empty(),
        defined_names(entries.push(entry)) == match defined_name(entry) {
            Some(own) => if exists|i: int|
                0 <= i < defined_names(entries).len() && #[trigger] defined_names(entries)[i]
                    == own {
                defined_names(entries)
            } else {
                defined_names(entries).push(own)
            },
            None => defined_names(entries),
        },
        files_of(seq![]) == Seq::<Entry>::empty(),
        files_of(entries.push(Entry::Folder(name))) == files_of(entries),
        files_of(entries.push(Entry::File(name))) == files_of(entries).push(Entry::File(name)),
{
    reveal(Seq::filter);
    assert(entries.push(entry).drop_last() == entries);
    assert(entries.push(Entry::Folder(name)).drop_last() == entries);
    assert(entries.push(Entry::File(name)).drop_last() == entries);
}

} // verus!
