use pycsort::scan::{escape, type_list};
use pycsort::{get_files, is_media_path, scan_patterns, select_media, ScanError};

fn listing(paths: &[&str]) -> Vec<String> {
    paths.iter().map(|p| p.to_string()).collect()
}

#[test]
fn recognises_every_file_type() {
    let types = [
        "jpg", "jpeg", "png", "heic", "webp", "tiff", "tif", "gif", "mp4", "mpeg4", "hevc",
        "webm", "mkv", "avi", "wmv", "m4v",
    ];
    for t in types {
        assert!(is_media_path(&format!("/pics/holiday.{}", t)), "{}", t);
    }
    assert_eq!(type_list().len(), 16);
    for (t, listed) in types.iter().zip(type_list()) {
        assert_eq!(format!(".{}", t), listed);
    }
}

#[test]
fn file_type_is_matched_in_any_case() {
    assert!(is_media_path("/pics/A.JPG"));
    assert!(is_media_path("/pics/a.JpEg"));
    assert!(is_media_path("/pics/clip.Mp4"));
    assert!(is_media_path("/pics/CLIP.MKV"));
}

#[test]
fn other_files_are_not_media() {
    assert!(!is_media_path("/pics/notes.txt"));
    assert!(!is_media_path("/pics/photo.jpg.txt"));
    assert!(!is_media_path("/pics/photo.jpg/inner"));
    assert!(!is_media_path("/pics/jpg"));
    assert!(!is_media_path("/pics/photojpg"));
    assert!(!is_media_path("/pics/photo.jp"));
    assert!(!is_media_path("/pics/photo.tifff"));
    assert!(!is_media_path(""));
    assert!(!is_media_path("jpg"));
}

#[test]
fn a_name_that_is_only_a_file_type_is_media() {
    assert!(is_media_path("/pics/.jpg"));
    assert!(is_media_path(".png"));
}

#[test]
fn letters_beyond_ascii_are_not_folded() {
    // U+212A, the Kelvin sign, is lower-cased to `k` by Unicode but is no ASCII letter.
    assert!(!is_media_path("/pics/clip.m\u{212A}v"));
    assert!(is_media_path("/pics/\u{00C9}t\u{00E9}.png"));
}

#[test]
fn scan_keeps_media_and_nothing_else() {
    let entries = listing(&[
        "/root/a/img1.jpg",
        "/root/readme.md",
        "/root/b/clip1.MP4",
        "/root/b/deep/er/shot.PNG",
        "/root/archive.zip",
        "/root/b/scan.tiff",
    ]);
    let mut files = get_files(Some(&entries)).unwrap();
    files.sort();
    let mut expected = listing(&[
        "/root/a/img1.jpg",
        "/root/b/clip1.MP4",
        "/root/b/deep/er/shot.PNG",
        "/root/b/scan.tiff",
    ]);
    expected.sort();
    assert_eq!(files, expected);
    for file in &files {
        assert!(entries.contains(file));
        assert!(is_media_path(file));
    }
    for entry in &entries {
        assert_eq!(files.contains(entry), is_media_path(entry));
    }
}

#[test]
fn scan_lists_type_by_type() {
    let entries = listing(&[
        "/r/z.mp4",
        "/r/b.png",
        "/r/a.jpg",
        "/r/c.JPG",
        "/r/y.tif",
        "/r/x.tiff",
        "/r/d.jpeg",
    ]);
    assert_eq!(
        get_files(Some(&entries)),
        Ok(listing(&[
            "/r/a.jpg",
            "/r/c.JPG",
            "/r/d.jpeg",
            "/r/b.png",
            "/r/x.tiff",
            "/r/y.tif",
            "/r/z.mp4",
        ]))
    );
    assert_eq!(select_media(&entries), get_files(Some(&entries)).unwrap());
}

#[test]
fn scan_of_nothing_is_empty() {
    assert_eq!(get_files(Some(&Vec::new())), Ok(Vec::new()));
    assert_eq!(get_files(Some(&listing(&["/r/a.txt", "/r/b"]))), Ok(Vec::new()));
    assert_eq!(select_media(&Vec::new()), Vec::<String>::new());
}

#[test]
fn scan_keeps_an_entry_as_often_as_it_is_listed() {
    let entries = listing(&["/r/a.jpg", "/r/a.jpg", "/r/b.gif"]);
    assert_eq!(select_media(&entries), listing(&["/r/a.jpg", "/r/a.jpg", "/r/b.gif"]));
}

#[test]
fn patterns_search_below_the_folder_for_each_type() {
    let patterns = scan_patterns("/home/me/Pictures");
    assert_eq!(patterns.len(), 16);
    assert_eq!(patterns[0], "/home/me/Pictures/**/*.jpg");
    assert_eq!(patterns[1], "/home/me/Pictures/**/*.jpeg");
    assert_eq!(patterns[9], "/home/me/Pictures/**/*.mpeg4");
    assert_eq!(patterns[15], "/home/me/Pictures/**/*.m4v");
    assert_eq!(scan_patterns("")[7], "/**/*.gif");
}

#[test]
fn scan_of_a_folder_that_cannot_be_read_fails() {
    assert_eq!(get_files(None), Err(ScanError::Unreadable));
}

#[test]
fn scan_error_in_words() {
    assert_eq!(ScanError::Unreadable.message(), "Could not read from selected folder");
}

#[test]
fn pattern_characters_are_set_in_brackets() {
    assert_eq!(escape(""), "");
    assert_eq!(escape("/home/me/Pictures"), "/home/me/Pictures");
    assert_eq!(escape("*"), "[*]");
    assert_eq!(escape("[2021]"), "[[]2021[]]");
    assert_eq!(escape("what?.jpg"), "what[?].jpg");
    assert_eq!(escape("a*b?c[d]e"), "a[*]b[?]c[[]d[]]e");
    assert_eq!(escape("??"), "[?][?]");
    assert_eq!(escape("!{}\\"), "!{}\\");
    assert_eq!(escape("/r\u{00E9}sum\u{00E9} [x]"), "/r\u{00E9}sum\u{00E9} [[]x[]]");
}

#[test]
fn escaping_is_that_of_the_pattern_matcher() {
    for text in ["", "plain", "/a/b c", "[", "]", "*?", "x[*]y", "/pics [2021]/*new*", "\u{00FC}*"] {
        assert_eq!(escape(text), glob::Pattern::escape(text), "{}", text);
    }
}

#[test]
fn patterns_take_the_folder_literally() {
    let patterns = scan_patterns("/pics [2021]/what?");
    assert_eq!(patterns.len(), 16);
    assert_eq!(patterns[0], "/pics [[]2021[]]/what[?]/**/*.jpg");
    assert_eq!(patterns[15], "/pics [[]2021[]]/what[?]/**/*.m4v");
    let options = glob::MatchOptions {
        case_sensitive: false,
        require_literal_separator: false,
        require_literal_leading_dot: false,
    };
    let pattern = glob::Pattern::new(&patterns[0]).unwrap();
    assert!(pattern.matches_with("/pics [2021]/what?/a/b.JPG", options));
    assert!(!pattern.matches_with("/pics 2/whatx/a/b.jpg", options));
    assert!(!pattern.matches_with("/pics [2021]/what?/a/b.png", options));
}

#[test]
fn scan_lists_no_path_twice() {
    let entries = listing(&[
        "/r/a.tif",
        "/r/a.tiff",
        "/r/b.mp4",
        "/r/b.mpeg4",
        "/r/c.jpg",
        "/r/c.jpeg",
        "/r/d.m4v",
        "/r/e.TIFF",
    ]);
    let files = select_media(&entries);
    assert_eq!(files.len(), entries.len());
    for (i, file) in files.iter().enumerate() {
        assert!(!files[..i].contains(file), "{}", file);
    }
}
