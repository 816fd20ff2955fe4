//! Where a file goes: the folder of its year and month below `sorted`, under
//! its own name, or under a second name where that one is taken.

use crate::date::{bucket_of, date_bucket};
use crate::text::{find_last, last_index, lemma_last_index, to_chars};
use vstd::prelude::*;

verus! {

/// The last component of a path: what follows its last `/`, or all of it.
pub open spec fn file_name(path: Seq<char>) -> Seq<char> {
    path.skip(last_index(path, '/') + 1)
}

/// The name of the folder that holds the file directly: the component before
/// the last `/`. It is empty for a path without a folder.
pub open spec fn parent_name(path: Seq<char>) -> Seq<char> {
    let cut = last_index(path, '/');
    if cut < 0 {
        Seq::empty()
    } else {
        file_name(path.take(cut))
    }
}

/// The second name of a file: ` (_parent)` set before the last `.` of the
/// name, or at its end where the name has no `.`. It tells files of one name
/// apart by the folders they come from, as far as those differ in name.
pub open spec fn alternate_name(name: Seq<char>, parent: Seq<char>) -> Seq<char> {
    let dot = last_index(name, '.');
    if dot < 0 {
        name + " (_"@ + parent + ")"@
    } else {
        name.take(dot) + " (_"@ + parent + ")."@ + name.skip(dot + 1)
    }
}

/// The folder that a sort fills.
pub open spec fn sorted_folder(root: Seq<char>) -> Seq<char> {
    root + "/sorted"@
}

/// The file that holds the transcript of a sort.
pub open spec fn log_path(root: Seq<char>) -> Seq<char> {
    sorted_folder(root) + "/sort_log.txt"@
}

/// The folder for the files of one year and month.
pub open spec fn bucket_folder(root: Seq<char>, date: Seq<char>) -> Seq<char> {
    sorted_folder(root) + "/"@ + date_bucket(date)
}

/// Where a file goes if nothing is there yet.
pub open spec fn destination(root: Seq<char>, file: Seq<char>, date: Seq<char>) -> Seq<char> {
    bucket_folder(root, date) + "/"@ + file_name(file)
}

/// Where a file goes if its first destination is taken.
pub open spec fn alternate_destination(
    root: Seq<char>,
    file: Seq<char>,
    date: Seq<char>,
) -> Seq<char> {
    bucket_folder(root, date) + "/"@ + alternate_name(file_name(file), parent_name(file))
}

/// One of the two destinations of a file.
pub open spec fn target(root: Seq<char>, file: Seq<char>, date: Seq<char>, alternate: bool) -> Seq<
    char,
> {
    if alternate {
        alternate_destination(root, file, date)
    } else {
        destination(root, file, date)
    }
}

/// The line of the transcript for one copy.
pub open spec fn transcript_line(file: Seq<char>, to: Seq<char>) -> Seq<char> {
    file + " -> "@ + to
}

/// The text of the log: every line of the transcript, each ended by a newline.
pub open spec fn log_text(lines: Seq<Seq<char>>) -> Seq<char>
    decreases lines.len(),
{
    if lines.len() == 0 {
        Seq::empty()
    } else {
        log_text(lines.drop_last()) + lines.last() + "\n"@
    }
}

/// The second name is longer than the first by the parent's name and four
/// characters, so the two destinations of a file are never the same path.
pub proof fn lemma_alternate_differs(root: Seq<char>, file: Seq<char>, date: Seq<char>)
    ensures
        alternate_name(file_name(file), parent_name(file)).len() == file_name(file).len()
            + parent_name(file).len() + 4,
        alternate_destination(root, file, date) != destination(root, file, date),
{
    reveal_strlit(" (_");
    reveal_strlit(")");
    reveal_strlit(").");
    let name = file_name(file);
    lemma_last_index(name, '.');
    assert(alternate_destination(root, file, date).len() != destination(root, file, date).len());
}

/// Files of one name from folders of different names get different second
/// names.
pub proof fn lemma_alternate_tells_parents_apart(
    name: Seq<char>,
    first: Seq<char>,
    second: Seq<char>,
)
    requires
        alternate_name(name, first) == alternate_name(name, second),
    ensures
        first == second,
{
    reveal_strlit(" (_");
    reveal_strlit(")");
    reveal_strlit(").");
    lemma_last_index(name, '.');
    let dot = last_index(name, '.');
    let lead: int = if dot < 0 {
        (name.len() + 3) as int
    } else {
        dot + 3
    };
    let a = alternate_name(name, first);
    let b = alternate_name(name, second);
    assert(a.len() == name.len() + first.len() + 4);
    assert(b.len() == name.len() + second.len() + 4);
    assert(first.len() == second.len());
    assert forall|i: int| 0 <= i < first.len() implies first[i] == second[i] by {
        assert(a[lead + i] == first[i]);
        assert(b[lead + i] == second[i]);
    }
    assert(first =~= second);
}

/// The last component of a path.
pub fn name_of(path: &str) -> (name: String)
    ensures
        name@ == file_name(path@),
{
    let chars = to_chars(path);
    let len: usize = chars.len();
    let from: usize = match find_last(&chars, '/') {
        Some(cut) => cut + 1,
        None => 0,
    };
    String::from_str(path.substring_char(from, len))
}

/// The name of the folder that holds the file directly.
pub fn parent_of(path: &str) -> (name: String)
    ensures
        name@ == parent_name(path@),
{
    let chars = to_chars(path);
    match find_last(&chars, '/') {
        Some(cut) => name_of(path.substring_char(0, cut)),
        None => String::new(),
    }
}

/// The name of a file with ` (_parent)` set before its extension.
pub fn second_name(name: &str, parent: &str) -> (r: String)
    ensures
        r@ == alternate_name(name@, parent@),
{
    let chars = to_chars(name);
    let len: usize = chars.len();
    match find_last(&chars, '.') {
        Some(dot) => {
            let mut r = String::from_str(name.substring_char(0, dot));
            r.append(" (_");
            r.append(parent);
            r.append(").");
            r.append(name.substring_char(dot + 1, len));
            r
        },
        None => {
            let mut r = String::from_str(name);
            r.append(" (_");
            r.append(parent);
            r.append(")");
            r
        },
    }
}

/// The folder `sorted` below the root.
pub fn sorted_folder_of(root: &str) -> (r: String)
    ensures
        r@ == sorted_folder(root@),
{
    let mut r = String::from_str(root);
    r.append("/sorted");
    r
}

/// The log file in the folder `sorted`.
pub fn log_path_of(root: &str) -> (r: String)
    ensures
        r@ == log_path(root@),
{
    let mut r = sorted_folder_of(root);
    r.append("/sort_log.txt");
    r
}

/// The folder below `sorted` for the year and month of a date.
pub fn bucket_folder_of(root: &str, date: &str) -> (r: String)
    requires
        date@.len() >= 7,
    ensures
        r@ == bucket_folder(root@, date@),
{
    let mut r = sorted_folder_of(root);
    r.append("/");
    r.append(bucket_of(date).as_str());
    r
}

/// Where a file with the given date is copied to: its first destination, or
/// its second if `alternate` is set.
pub fn target_of(root: &str, file: &str, date: &str, alternate: bool) -> (r: String)
    requires
        date@.len() >= 7,
    ensures
        r@ == target(root@, file@, date@, alternate),
{
    let mut r = bucket_folder_of(root, date);
    r.append("/");
    let name = name_of(file);
    if alternate {
        let parent = parent_of(file);
        r.append(second_name(name.as_str(), parent.as_str()).as_str());
    } else {
        r.append(name.as_str());
    }
    r
}

/// The line of the transcript for the copy of `file` to `to`.
pub fn line_of(file: &str, to: &str) -> (r: String)
    ensures
        r@ == transcript_line(file@, to@),
{
    let mut r = String::from_str(file);
    r.append(" -> ");
    r.append(to);
    r
}

/// The text of the log for the lines of a transcript.
pub fn log_of(lines: &Vec<String>) -> (r: String)
    ensures
        r@ == log_text(lines.deep_view()),
{
    let mut r = String::new();
    let mut i: usize = 0;
    while i < lines.len()
        invariant
            i <= lines@.len(),
            r@ == log_text(lines.deep_view().take(i as int)),
        decreases lines@.len() - i,
    {
        proof {
            let upto = lines.deep_view().take(i + 1);
            assert(upto.drop_last() == lines.deep_view().take(i as int));
            assert(upto.last() == lines@[i as int]@);
        }
        r.append(lines[i].as_str());
        r.append("\n");
        i = i + 1;
    }
    proof {
        assert(lines.deep_view().take(lines@.len() as int) == lines.deep_view());
    }
    r
}

} // verus!
