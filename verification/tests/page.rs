//! The pages on which a peer shows what it shares.

use mirra::config::with_default_port;
use mirra::error::ErrorKind;
use mirra::page::{find_first, make_description, make_list_page, replace_all, string_of};
use mirra::path::chars_of;

fn replace(text: &str, pat: &str, with: &str) -> String {
    string_of(&replace_all(&chars_of(text), &chars_of(pat), &chars_of(with)))
}

fn find(text: &str, pat: &str) -> Option<usize> {
    find_first(&chars_of(text), &chars_of(pat))
}

fn rows(list: &[(&str, &str, bool)]) -> Vec<(String, String, bool)> {
    list.iter().map(|(p, i, d)| (p.to_string(), i.to_string(), *d)).collect()
}

#[test]
fn description_names_the_module() {
    assert_eq!(
        make_description(&"alpha".to_string(), &Some("docs".to_string())),
        "Share alpha's docs module via <a href=\"https://github.com/Not-Nik/mirra\">mirra</a>."
    );
    assert_eq!(
        make_description(&"alpha".to_string(), &None),
        "Share any of alpha's modules via <a href=\"https://github.com/Not-Nik/mirra\">mirra</a>."
    );
}

#[test]
fn find_gives_the_first_place() {
    assert_eq!(find("abcabc", "bc"), Some(1));
    assert_eq!(find("abcabc", "abc"), Some(0));
    assert_eq!(find("abcabc", "c"), Some(2));
    assert_eq!(find("abcabc", "cab"), Some(2));
    assert_eq!(find("abcabc", "abcabc"), Some(0));
    assert_eq!(find("abcabc", "abcabcd"), None);
    assert_eq!(find("abcabc", "x"), None);
    assert_eq!(find("", "x"), None);
    assert_eq!(find("abc", ""), Some(0));
    assert_eq!(find("", ""), Some(0));
    assert_eq!(find("\u{e9}\u{e9}x", "x"), Some(2));
}

#[test]
fn replace_is_that_of_the_standard_library() {
    for (text, pat, with) in [
        ("hello $name, $name!", "$name", "you"),
        ("aaaa", "aa", "b"),
        ("aaa", "aa", "b"),
        ("abc", "abc", ""),
        ("abc", "abcd", "x"),
        ("", "a", "b"),
        ("abab", "ab", "abab"),
        ("a$pathb", "$path", "$path"),
        ("x", "x", "xx"),
        ("$$name", "$name", "n"),
        ("tail$nam", "$name", "n"),
    ] {
        assert_eq!(replace(text, pat, with), text.replace(pat, with), "{:?}", (text, pat, with));
    }
}

#[test]
fn layout_without_section_gives_the_error_page() {
    let name = "alpha".to_string();
    for layout in ["", "plain", "only $( begins", "only )* ends", ")* before $("] {
        assert_eq!(
            make_list_page(layout, &rows(&[("a", "b", true)]), &None, &None, &name),
            Ok("error".to_string()),
            "{:?}",
            layout
        );
    }
}

#[test]
fn rows_are_written_for_each_entry() {
    let layout = "<ul>$(<li $download>$path ($info)</li>)*</ul>";
    let page = make_list_page(
        layout,
        &rows(&[("a.txt", "5B", true), ("sub/", "-", false)]),
        &Some("docs".to_string()),
        &Some("example.org".to_string()),
        &"alpha".to_string(),
    );
    assert_eq!(page, Ok("<ul><li download>a.txt (5B)</li><li >sub/ (-)</li></ul>".to_string()));
    let none = make_list_page(layout, &rows(&[]), &None, &None, &"alpha".to_string());
    assert_eq!(none, Ok("<ul></ul>".to_string()));
}

#[test]
fn placeholders_behind_the_section_are_filled_in() {
    let layout = "$(<$path>)*|$title|$name|$desc|$setup|";
    let page = make_list_page(
        layout,
        &rows(&[("x", "", false), ("y", "", false)]),
        &Some("docs".to_string()),
        &Some("example.org".to_string()),
        &"alpha".to_string(),
    )
    .unwrap();
    assert_eq!(
        page,
        "<x><y>|mirra|alpha|Share alpha's docs module via \
         <a href=\"https://github.com/Not-Nik/mirra\">mirra</a>.|mirra sync example.org docs|"
    );
    let bare =
        make_list_page(layout, &rows(&[]), &None, &Some("h".to_string()), &"n".to_string()).unwrap();
    assert_eq!(
        bare,
        "|mirra|n|Share any of n's modules via \
         <a href=\"https://github.com/Not-Nik/mirra\">mirra</a>.||"
    );
}

#[test]
fn rows_go_where_the_section_began_in_the_layout() {
    // The head grows by two characters when the name is filled in, and the
    // rows are put at the index that the section had in the layout.
    let layout = "[$name]$(<$path>)*.";
    let page =
        make_list_page(layout, &rows(&[("x", "", false)]), &None, &None, &"1234567".to_string());
    assert_eq!(page, Ok("[123456<x>7].".to_string()));
    // A head that shrinks below that index leaves no place for the rows.
    let layout = "$setup$setup$(<$path>)*";
    let page = make_list_page(layout, &rows(&[("x", "", false)]), &None, &None, &"n".to_string());
    assert_eq!(page, Err(ErrorKind::Other));
}

#[test]
fn an_address_without_port_gets_the_default_port() {
    assert_eq!(with_default_port("10.0.0.1"), "10.0.0.1:6007");
    assert_eq!(with_default_port("10.0.0.1:7000"), "10.0.0.1:7000");
    assert_eq!(with_default_port(""), ":6007");
    assert_eq!(with_default_port("[::1]:1"), "[::1]:1");
    assert_eq!(with_default_port("::1"), "::1");
}
