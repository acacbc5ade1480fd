use docker_starter_rust::endpoint::{
    api_root, base_url, blob_reference, hosted_only, library_path, manifest_reference, require_url,
};
use docker_starter_rust::order::{place_ranges, Placement};
use docker_starter_rust::text::{
    append_decimal, find_char, is_whitespace_char, str_eq, strip_range, to_chars, CharClass,
};
use docker_starter_rust::ContainerError;

fn placed(a: &str, b: &str) -> Placement {
    let mut text: Vec<char> = a.chars().collect();
    let cut: usize = text.len();
    text.extend(b.chars());
    place_ranges(&text, 0, cut, cut, text.len())
}

fn stripped(s: &str, class: CharClass) -> String {
    let text = to_chars(s);
    let (start, end) = strip_range(&text, 0, text.len(), class);
    text[start..end].iter().collect()
}

#[test]
fn white_space_is_what_std_calls_white_space() {
    let mut code: u32 = 0;
    while code <= 0x10FFFF {
        if let Some(c) = char::from_u32(code) {
            assert_eq!(is_whitespace_char(c), c.is_whitespace(), "U+{:04X}", code);
        }
        code += 1;
    }
}

#[test]
fn characters_are_listed_one_by_one() {
    assert_eq!(to_chars(""), Vec::<char>::new());
    assert_eq!(to_chars("a\u{e9}\u{10348}z"), vec!['a', '\u{e9}', '\u{10348}', 'z']);
}

#[test]
fn texts_are_equal_by_their_characters() {
    assert!(str_eq("", ""));
    assert!(str_eq("amd64", "amd64"));
    assert!(!str_eq("amd64", "amd6"));
    assert!(!str_eq("amd64", "arm64"));
    assert!(!str_eq("amd64", "AMD64"));
    assert!(str_eq("caf\u{e9}", "caf\u{e9}"));
    assert!(!str_eq("caf\u{e9}", "cafe\u{301}"));
}

#[test]
fn first_occurrence_is_found_within_bounds() {
    let text = to_chars("a,b,c");
    assert_eq!(find_char(&text, 0, 5, ','), 1);
    assert_eq!(find_char(&text, 2, 5, ','), 3);
    assert_eq!(find_char(&text, 4, 5, ','), 5);
    assert_eq!(find_char(&text, 0, 1, ','), 1);
    assert_eq!(find_char(&text, 2, 2, ','), 2);
}

#[test]
fn both_ends_are_stripped() {
    assert_eq!(stripped("  a b \t\n", CharClass::Whitespace), "a b");
    assert_eq!(stripped(" \u{a0}\u{3000} ", CharClass::Whitespace), "");
    assert_eq!(stripped("", CharClass::Whitespace), "");
    assert_eq!(stripped("\"\"a\"b\"", CharClass::Exactly('"')), "a\"b");
    assert_eq!(stripped(" \"a\" ", CharClass::Exactly('"')), " \"a\" ");
}

#[test]
fn texts_are_placed_as_strings_are_ordered() {
    let samples = ["", "a", "A", "ab", "b", "aa", "a b", "\u{e9}", "\u{10348}", "\u{ffff}", "z"];
    for a in samples {
        for b in samples {
            let expected = if a < b {
                Placement::Before
            } else if a == b {
                Placement::Same
            } else {
                Placement::After
            };
            assert_eq!(format!("{:?}", placed(a, b)), format!("{:?}", expected), "{:?} {:?}", a, b);
        }
    }
}

#[test]
fn paths_are_built_from_their_names() {
    assert_eq!(library_path("ubuntu"), "/v2/library/ubuntu/");
    assert_eq!(library_path(""), "/v2/library//");
    assert_eq!(manifest_reference("latest"), "manifests/latest");
    assert_eq!(manifest_reference("sha256:ab"), "manifests/sha256:ab");
    assert_eq!(blob_reference("sha256:cd"), "blobs/sha256:cd");
}

#[test]
fn base_is_read_as_a_url_with_a_host() {
    assert_eq!(
        base_url("https://registry.hub.docker.com"),
        Some("https://registry.hub.docker.com/".to_string())
    );
    assert_eq!(base_url("HTTP://Example.COM:80/a/../b"), Some("http://example.com/b".to_string()));
    assert_eq!(base_url("unix:/run/foo.socket"), None);
    assert_eq!(base_url("data:text/plain,Stuff"), None);
    assert_eq!(base_url("not a url"), None);
}

#[test]
fn api_root_replaces_the_path_of_the_base() {
    assert_eq!(
        api_root("https://registry.hub.docker.com", "ubuntu"),
        Ok("https://registry.hub.docker.com/v2/library/ubuntu/".to_string())
    );
    assert_eq!(
        api_root("http://localhost:5000/some/path?x=1", "alpine"),
        Ok("http://localhost:5000/v2/library/alpine/".to_string())
    );
    assert_eq!(api_root("localhost", "alpine"), Err(ContainerError::Auth("Invalid base URL")));
}

#[test]
fn url_that_is_missing_becomes_the_error_given() {
    assert_eq!(require_url(Some("http://a/".to_string()), "no"), Ok("http://a/".to_string()));
    assert_eq!(require_url(None, "Cannot join url with blobs"), Err(ContainerError::Auth("Cannot join url with blobs")));
    assert_eq!(hosted_only("http://a/".to_string(), true), Some("http://a/".to_string()));
    assert_eq!(hosted_only("data:x".to_string(), false), None);
}

#[test]
fn numbers_are_written_in_decimal() {
    for n in [0u16, 7, 9, 10, 11, 99, 100, 101, 404, 1000, 9999, 10000, 65535] {
        let mut out = String::from("n=");
        append_decimal(&mut out, n);
        assert_eq!(out, format!("n={}", n));
    }
}
