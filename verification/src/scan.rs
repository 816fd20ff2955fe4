//! Which paths of a directory listing are media files.

use crate::text::{ends_with_fold, ends_with_folded, fold_case, to_chars};
use vstd::prelude::*;

verus! {

/// Why a scan failed.
#[derive(Clone, Copy, Debug, PartialEq, Eq)]
pub enum ScanError {
    /// The folder is not there, or cannot be read.
    Unreadable,
}

/// What the user is told where a scan failed.
pub open spec fn scan_error_text(error: ScanError) -> Seq<char> {
    match error {
        ScanError::Unreadable => "Could not read from selected folder"@,
    }
}

impl ScanError {
    /// The error in words.
    pub fn message(&self) -> (text: String)
        ensures
            text@ == scan_error_text(*self),
    {
        match self {
            ScanError::Unreadable => String::from_str("Could not read from selected folder"),
        }
    }
}

/// The recognised file types, each as the ending of a file's name, in the
/// order in which a scan lists them.
pub open spec fn file_types() -> Seq<Seq<char>> {
    seq![
        ".jpg"@,
        ".jpeg"@,
        ".png"@,
        ".heic"@,
        ".webp"@,
        ".tiff"@,
        ".tif"@,
        ".gif"@,
        ".mp4"@,
        ".mpeg4"@,
        ".hevc"@,
        ".webm"@,
        ".mkv"@,
        ".avi"@,
        ".wmv"@,
        ".m4v"@,
    ]
}

/// The path ends in one of the recognised file types, in any mix of upper and
/// lower case.
pub open spec fn has_media_extension(path: Seq<char>) -> bool {
    exists|k: int| 0 <= k < file_types().len() && ends_with_folded(path, #[trigger] file_types()[k])
}

/// The entries of one file type, in the order of the listing.
pub open spec fn of_type(entries: Seq<Seq<char>>, file_type: Seq<char>) -> Seq<Seq<char>> {
    entries.filter(|path: Seq<char>| ends_with_folded(path, file_type))
}

/// The entries of the given file types: type by type, and within a type in the
/// order of the listing.
pub open spec fn of_types(entries: Seq<Seq<char>>, types: Seq<Seq<char>>) -> Seq<Seq<char>>
    decreases types.len(),
{
    if types.len() == 0 {
        Seq::empty()
    } else {
        of_types(entries, types.drop_last()) + of_type(entries, types.last())
    }
}

/// What a scan keeps of a directory listing.
pub open spec fn media_files(entries: Seq<Seq<char>>) -> Seq<Seq<char>> {
    of_types(entries, file_types())
}

/// The characters that mean something else than themselves in a search
/// pattern.
pub open spec fn is_pattern_char(c: char) -> bool {
    c == '?' || c == '*' || c == '[' || c == ']'
}

/// A character as a search pattern that finds that character only: set in
/// brackets where it would mean something else.
pub open spec fn escaped_char(c: char) -> Seq<char> {
    if is_pattern_char(c) {
        seq!['[', c, ']']
    } else {
        seq![c]
    }
}

/// A text as a search pattern that finds that text only.
pub open spec fn escaped(text: Seq<char>) -> Seq<char>
    decreases text.len(),
{
    if text.len() == 0 {
        Seq::empty()
    } else {
        escaped(text.drop_last()) + escaped_char(text.last())
    }
}

/// The search pattern for one file type below `folder`: the folder, taken
/// literally, then any path below it that ends in the file type.
pub open spec fn pattern_for(folder: Seq<char>, file_type: Seq<char>) -> Seq<char> {
    escaped(folder) + "/**/*"@ + file_type
}

/// A path is among the entries of one type exactly if it is an entry and ends in that type.
pub proof fn lemma_of_type_contains(entries: Seq<Seq<char>>, file_type: Seq<char>, path: Seq<char>)
    ensures
        of_type(entries, file_type).contains(path) <==> entries.contains(path) && ends_with_folded(
            path,
            file_type,
        ),
{
    let pred = |p: Seq<char>| ends_with_folded(p, file_type);
    if of_type(entries, file_type).contains(path) {
        entries.lemma_filter_contains_rev(pred, path);
        let i = choose|i: int|
            0 <= i < entries.filter(pred).len() && entries.filter(pred)[i] == path;
        entries.lemma_filter_pred(pred, i);
    }
    if entries.contains(path) && ends_with_folded(path, file_type) {
        let i = choose|i: int| 0 <= i < entries.len() && entries[i] == path;
        entries.lemma_filter_contains(pred, i);
    }
}

/// A path is among the entries of some types exactly if it is an entry and ends in one of them.
pub proof fn lemma_of_types_contains(
    entries: Seq<Seq<char>>,
    types: Seq<Seq<char>>,
    path: Seq<char>,
)
    ensures
        of_types(entries, types).contains(path) <==> entries.contains(path) && exists|k: int|
            0 <= k < types.len() && ends_with_folded(path, #[trigger] types[k]),
    decreases types.len(),
{
    if types.len() > 0 {
        let head = types.drop_last();
        let a = of_types(entries, head);
        let b = of_type(entries, types.last());
        lemma_of_types_contains(entries, head, path);
        lemma_of_type_contains(entries, types.last(), path);
        if (a + b).contains(path) {
            let i = choose|i: int| 0 <= i < (a + b).len() && (a + b)[i] == path;
            if i < a.len() {
                assert(a[i] == path);
                let k = choose|k: int|
                    0 <= k < head.len() && ends_with_folded(path, #[trigger] head[k]);
                assert(types[k] == head[k]);
            } else {
                assert(b[i - a.len()] == path);
                assert(ends_with_folded(path, types[types.len() - 1]));
            }
        }
        if entries.contains(path) && exists|k: int|
            0 <= k < types.len() && ends_with_folded(path, #[trigger] types[k]) {
            let k = choose|k: int|
                0 <= k < types.len() && ends_with_folded(path, #[trigger] types[k]);
            if k < head.len() {
                assert(head[k] == types[k]);
                let i = choose|i: int| 0 <= i < a.len() && a[i] == path;
                assert((a + b)[i] == path);
            } else {
                let i = choose|i: int| 0 <= i < b.len() && b[i] == path;
                assert((a + b)[a.len() + i] == path);
            }
        }
    }
}

/// A scan keeps exactly the entries that end in a recognised file type, and
/// nothing else.
pub proof fn lemma_scan_keeps_exactly_media(entries: Seq<Seq<char>>, path: Seq<char>)
    ensures
        media_files(entries).contains(path) <==> entries.contains(path) && has_media_extension(path),
{
    lemma_of_types_contains(entries, file_types(), path);
}

/// Every file type is a dot and three to five characters that are no dot.
proof fn lemma_types_are_plain()
    ensures
        file_types().len() == 16,
        forall|k: int|
            0 <= k < 16 ==> {
                let t = #[trigger] file_types()[k];
                &&& 4 <= t.len() <= 6
                &&& t[0] == '.'
                &&& forall|i: int| 1 <= i < t.len() ==> fold_case(#[trigger] t[i]) != '.'
            },
{
    reveal_strlit(".jpg");
    reveal_strlit(".jpeg");
    reveal_strlit(".png");
    reveal_strlit(".heic");
    reveal_strlit(".webp");
    reveal_strlit(".tiff");
    reveal_strlit(".tif");
    reveal_strlit(".gif");
    reveal_strlit(".mp4");
    reveal_strlit(".mpeg4");
    reveal_strlit(".hevc");
    reveal_strlit(".webm");
    reveal_strlit(".mkv");
    reveal_strlit(".avi");
    reveal_strlit(".wmv");
    reveal_strlit(".m4v");
}

/// No two file types of one length read alike.
proof fn lemma_types_differ(j: int, k: int)
    requires
        0 <= j < 16,
        0 <= k < 16,
        j != k,
        file_types()[j].len() == file_types()[k].len(),
    ensures
        exists|i: int|
            1 <= i < file_types()[j].len() && fold_case(#[trigger] file_types()[j][i]) != fold_case(
                file_types()[k][i],
            ),
{
    reveal_strlit(".jpg");
    reveal_strlit(".jpeg");
    reveal_strlit(".png");
    reveal_strlit(".heic");
    reveal_strlit(".webp");
    reveal_strlit(".tiff");
    reveal_strlit(".tif");
    reveal_strlit(".gif");
    reveal_strlit(".mp4");
    reveal_strlit(".mpeg4");
    reveal_strlit(".hevc");
    reveal_strlit(".webm");
    reveal_strlit(".mkv");
    reveal_strlit(".avi");
    reveal_strlit(".wmv");
    reveal_strlit(".m4v");
    let a = file_types()[j];
    let b = file_types()[k];
    if fold_case(a[1]) != fold_case(b[1]) {
    } else if fold_case(a[2]) != fold_case(b[2]) {
    } else if fold_case(a[3]) != fold_case(b[3]) {
    } else {
        assert(a.len() >= 5);
        assert(fold_case(a[4]) != fold_case(b[4]));
    }
}

/// A path ends in one file type at most.
pub proof fn lemma_one_type_at_most(path: Seq<char>, j: int, k: int)
    requires
        0 <= j < file_types().len(),
        0 <= k < file_types().len(),
        ends_with_folded(path, file_types()[j]),
        ends_with_folded(path, file_types()[k]),
    ensures
        j == k,
{
    lemma_types_are_plain();
    let a = file_types()[j];
    let b = file_types()[k];
    if j != k {
        if a.len() == b.len() {
            lemma_types_differ(j, k);
            let i = choose|i: int|
                1 <= i < a.len() && fold_case(#[trigger] a[i]) != fold_case(b[i]);
            assert(fold_case(path[path.len() - a.len() + i]) == fold_case(a[i]));
            assert(fold_case(path[path.len() - b.len() + i]) == fold_case(b[i]));
        } else if a.len() < b.len() {
            let i = b.len() - a.len();
            assert(fold_case(path[path.len() - a.len() + 0]) == fold_case(a[0]));
            assert(fold_case(path[path.len() - b.len() + i]) == fold_case(b[i]));
        } else {
            let i = a.len() - b.len();
            assert(fold_case(path[path.len() - b.len() + 0]) == fold_case(b[0]));
            assert(fold_case(path[path.len() - a.len() + i]) == fold_case(a[i]));
        }
    }
}

/// Among the entries of one type no path stands twice, if none does in the
/// listing.
proof fn lemma_of_type_repeats_nothing(entries: Seq<Seq<char>>, file_type: Seq<char>)
    requires
        entries.no_duplicates(),
    ensures
        of_type(entries, file_type).no_duplicates(),
    decreases entries.len(),
{
    reveal(Seq::filter);
    if entries.len() > 0 {
        let head = entries.drop_last();
        let last = entries.last();
        assert(head.no_duplicates()) by {
            assert forall|i: int, j: int| 0 <= i < head.len() && 0 <= j < head.len() && i != j implies head[i] != head[j] by {
                assert(head[i] == entries[i] && head[j] == entries[j]);
            }
        }
        lemma_of_type_repeats_nothing(head, file_type);
        let kept = of_type(head, file_type);
        if ends_with_folded(last, file_type) {
            assert(of_type(entries, file_type) == kept.push(last));
            if kept.contains(last) {
                lemma_of_type_contains(head, file_type, last);
                let i = choose|i: int| 0 <= i < head.len() && head[i] == last;
                assert(entries[i] == entries[entries.len() - 1]);
            }
            assert forall|i: int, j: int|
                0 <= i < kept.push(last).len() && 0 <= j < kept.push(last).len() && i != j implies kept.push(
                last,
            )[i] != kept.push(last)[j] by {
                if i < kept.len() && j < kept.len() {
                } else if i < kept.len() {
                    assert(kept.contains(kept[i]));
                } else {
                    assert(kept.contains(kept[j]));
                }
            }
        } else {
            assert(of_type(entries, file_type) == kept);
        }
    }
}

/// Among the entries of the first `n` file types no path stands twice, if
/// none does in the listing.
proof fn lemma_of_types_repeats_nothing(entries: Seq<Seq<char>>, n: int)
    requires
        entries.no_duplicates(),
        0 <= n <= file_types().len(),
    ensures
        of_types(entries, file_types().take(n)).no_duplicates(),
    decreases n,
{
    let types = file_types().take(n);
    if n > 0 {
        assert(types.drop_last() == file_types().take(n - 1));
        assert(types.last() == file_types()[n - 1]);
        lemma_of_types_repeats_nothing(entries, n - 1);
        lemma_of_type_repeats_nothing(entries, types.last());
        let a = of_types(entries, types.drop_last());
        let b = of_type(entries, types.last());
        assert forall|i: int, j: int| 0 <= i < a.len() && 0 <= j < b.len() implies a[i] != b[j] by {
            if a[i] == b[j] {
                let path = a[i];
                assert(a.contains(path));
                assert(b.contains(path));
                lemma_of_types_contains(entries, types.drop_last(), path);
                lemma_of_type_contains(entries, types.last(), path);
                let k = choose|k: int|
                    0 <= k < types.drop_last().len() && ends_with_folded(
                        path,
                        #[trigger] types.drop_last()[k],
                    );
                assert(types.drop_last()[k] == file_types()[k]);
                lemma_one_type_at_most(path, k, n - 1);
            }
        }
        vstd::seq_lib::lemma_no_dup_in_concat(a, b);
    }
}

/// A scan lists no path twice, if the listing names none twice.
pub proof fn lemma_scan_repeats_nothing(entries: Seq<Seq<char>>)
    requires
        entries.no_duplicates(),
    ensures
        media_files(entries).no_duplicates(),
{
    lemma_types_are_plain();
    lemma_of_types_repeats_nothing(entries, 16);
    assert(file_types().take(16) == file_types());
}

/// Every path that a scan keeps ends in a recognised file type.
pub proof fn lemma_scan_keeps_media_only(entries: Seq<Seq<char>>)
    ensures
        forall|i: int|
            0 <= i < media_files(entries).len() ==> has_media_extension(
                #[trigger] media_files(entries)[i],
            ),
{
    assert forall|i: int| 0 <= i < media_files(entries).len() implies has_media_extension(
        #[trigger] media_files(entries)[i],
    ) by {
        let path = media_files(entries)[i];
        assert(media_files(entries).contains(path));
        lemma_scan_keeps_exactly_media(entries, path);
    }
}

/// The recognised file types, as `file_types` lists them.
pub fn type_list() -> (types: Vec<&'static str>)
    ensures
        types@.len() == file_types().len(),
        forall|k: int| 0 <= k < types@.len() ==> (#[trigger] types@[k])@ == file_types()[k],
{
    vec![
        ".jpg",
        ".jpeg",
        ".png",
        ".heic",
        ".webp",
        ".tiff",
        ".tif",
        ".gif",
        ".mp4",
        ".mpeg4",
        ".hevc",
        ".webm",
        ".mkv",
        ".avi",
        ".wmv",
        ".m4v",
    ]
}

/// Whether a path ends in a recognised file type.
pub fn is_media_path(path: &str) -> (r: bool)
    ensures
        r == has_media_extension(path@),
{
    let chars = to_chars(path);
    let types = type_list();
    let mut k: usize = 0;
    while k < types.len()
        invariant
            k <= types@.len(),
            types@.len() == file_types().len(),
            chars@ == path@,
            forall|j: int| 0 <= j < types@.len() ==> (#[trigger] types@[j])@ == file_types()[j],
            forall|j: int| 0 <= j < k ==> !ends_with_folded(path@, #[trigger] file_types()[j]),
        decreases types@.len() - k,
    {
        let suffix = to_chars(types[k]);
        if ends_with_fold(&chars, &suffix) {
            assert(ends_with_folded(path@, file_types()[k as int]));
            return true;
        }
        k = k + 1;
    }
    false
}

/// A pattern character, set in brackets.
fn bracketed(c: char) -> (r: &'static str)
    requires
        is_pattern_char(c),
    ensures
        r@ == escaped_char(c),
{
    proof {
        reveal_strlit("[?]");
        reveal_strlit("[*]");
        reveal_strlit("[[]");
        reveal_strlit("[]]");
    }
    let r = if c == '?' {
        "[?]"
    } else if c == '*' {
        "[*]"
    } else if c == '[' {
        "[[]"
    } else {
        "[]]"
    };
    assert(r@ =~= escaped_char(c));
    r
}

/// The text as a search pattern that finds that text only: each of `?`, `*`,
/// `[` and `]` is set in brackets.
pub fn escape(text: &str) -> (pattern: String)
    ensures
        pattern@ == escaped(text@),
{
    let chars = to_chars(text);
    let mut pattern = String::new();
    let mut start: usize = 0;
    let mut i: usize = 0;
    while i < chars.len()
        invariant
            start <= i <= chars@.len(),
            chars@ == text@,
            pattern@ + text@.subrange(start as int, i as int) == escaped(text@.take(i as int)),
        decreases chars@.len() - i,
    {
        let c = chars[i];
        proof {
            assert(text@.take(i + 1).drop_last() == text@.take(i as int));
            assert(text@.take(i + 1).last() == c);
        }
        if c == '?' || c == '*' || c == '[' || c == ']' {
            let ghost before = pattern@;
            let ghost from = start as int;
            pattern.append(text.substring_char(start, i));
            pattern.append(bracketed(c));
            start = i + 1;
            assert(pattern@ + text@.subrange(start as int, i + 1) =~= (before + text@.subrange(
                from,
                i as int,
            )) + escaped_char(c));
        } else {
            assert(text@.subrange(start as int, i + 1) =~= text@.subrange(start as int, i as int)
                + escaped_char(c));
            assert(pattern@ + text@.subrange(start as int, i + 1) =~= pattern@ + text@.subrange(
                start as int,
                i as int,
            ) + escaped_char(c));
        }
        i = i + 1;
    }
    pattern.append(text.substring_char(start, i));
    proof {
        assert(text@.take(chars@.len() as int) == text@);
    }
    pattern
}

/// The search patterns of a scan below `folder`, one for each file type.
pub fn scan_patterns(folder: &str) -> (patterns: Vec<String>)
    ensures
        patterns@.len() == file_types().len(),
        forall|k: int|
            0 <= k < patterns@.len() ==> (#[trigger] patterns@[k])@ == pattern_for(
                folder@,
                file_types()[k],
            ),
{
    let types = type_list();
    let mut patterns: Vec<String> = Vec::new();
    let mut k: usize = 0;
    while k < types.len()
        invariant
            k <= types@.len(),
            patterns@.len() == k,
            types@.len() == file_types().len(),
            forall|j: int| 0 <= j < types@.len() ==> (#[trigger] types@[j])@ == file_types()[j],
            forall|j: int|
                0 <= j < k ==> (#[trigger] patterns@[j])@ == pattern_for(folder@, file_types()[j]),
        decreases types@.len() - k,
    {
        let mut pattern = escape(folder);
        pattern.append("/**/*");
        pattern.append(types[k]);
        patterns.push(pattern);
        k = k + 1;
    }
    patterns
}

/// The media files among the entries of a directory listing: those that end
/// in a recognised file type, grouped by type in the order of `file_types`,
/// and within a type in the order of the listing.
pub fn select_media(entries: &Vec<String>) -> (files: Vec<String>)
    ensures
        files.deep_view() == media_files(entries.deep_view()),
        forall|path: Seq<char>| #[trigger]
            files.deep_view().contains(path) <==> entries.deep_view().contains(path)
                && has_media_extension(path),
{
    let ghost listing = entries.deep_view();
    let types = type_list();
    let mut names: Vec<Vec<char>> = Vec::new();
    let mut j: usize = 0;
    while j < entries.len()
        invariant
            j <= entries@.len(),
            names@.len() == j,
            forall|i: int| 0 <= i < j ==> (#[trigger] names@[i])@ == entries@[i]@,
        decreases entries@.len() - j,
    {
        names.push(to_chars(entries[j].as_str()));
        j = j + 1;
    }
    let mut files: Vec<String> = Vec::new();
    let mut k: usize = 0;
    while k < types.len()
        invariant
            k <= types@.len(),
            types@.len() == file_types().len(),
            listing == entries.deep_view(),
            names@.len() == entries@.len(),
            forall|i: int| 0 <= i < types@.len() ==> (#[trigger] types@[i])@ == file_types()[i],
            forall|i: int| 0 <= i < names@.len() ==> (#[trigger] names@[i])@ == entries@[i]@,
            files.deep_view() == of_types(listing, file_types().take(k as int)),
        decreases types@.len() - k,
    {
        let suffix = to_chars(types[k]);
        let ghost file_type = file_types()[k as int];
        let ghost before = files.deep_view();
        let mut j: usize = 0;
        while j < entries.len()
            invariant
                j <= entries@.len(),
                listing == entries.deep_view(),
                names@.len() == entries@.len(),
                suffix@ == file_type,
                forall|i: int| 0 <= i < names@.len() ==> (#[trigger] names@[i])@ == entries@[i]@,
                files.deep_view() == before + of_type(listing.take(j as int), file_type),
            decreases entries@.len() - j,
        {
            let ghost seen = files.deep_view();
            proof {
                reveal(Seq::filter);
                assert(listing.take(j + 1).drop_last() == listing.take(j as int));
                assert(listing.take(j + 1).last() == entries@[j as int]@);
            }
            if ends_with_fold(&names[j], &suffix) {
                files.push(entries[j].clone());
                assert(files.deep_view() == seen.push(entries@[j as int]@));
            }
            j = j + 1;
        }
        proof {
            assert(listing.take(entries@.len() as int) == listing);
            assert(file_types().take(k + 1).drop_last() == file_types().take(k as int));
        }
        k = k + 1;
    }
    proof {
        assert(file_types().take(file_types().len() as int) == file_types());
        assert forall|path: Seq<char>| #[trigger]
            files.deep_view().contains(path) <==> entries.deep_view().contains(path)
                && has_media_extension(path) by {
            lemma_scan_keeps_exactly_media(listing, path);
        }
    }
    files
}

/// The media files below a folder, given what a walk through the folder
/// found: every file below it, at any depth, or nothing where the folder is
/// not there or cannot be read. Then the scan fails; else it keeps exactly the
/// files that end in a recognised file type.
pub fn get_files(listing: Option<&Vec<String>>) -> (scan: Result<Vec<String>, ScanError>)
    ensures
        scan.is_ok() == listing.is_some(),
        scan matches Err(error) ==> error == ScanError::Unreadable,
        scan matches Ok(files) ==> {
            &&& files.deep_view() == media_files(listing.unwrap().deep_view())
            &&& forall|path: Seq<char>| #[trigger]
                files.deep_view().contains(path) <==> listing.unwrap().deep_view().contains(path)
                    && has_media_extension(path)
        },
{
    match listing {
        Some(entries) => Ok(select_media(entries)),
        None => Err(ScanError::Unreadable),
    }
}

} // verus!
