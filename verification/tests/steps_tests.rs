use lord_of_the_files::pattern::CompiledRegex;
use lord_of_the_files::steps::{
    change_case, clean_up, counter_affix, find_replace, insert, regex_replace, remove,
};
use lord_of_the_files::types::{AffixPosition, CaseMode, InsertPosition, RemoveFrom};

#[test]
fn find_replace_basic() {
    assert_eq!(find_replace("foo_bar_foo", "foo", "x", true, true), "x_bar_x");
    assert_eq!(find_replace("foo_bar_foo", "foo", "x", true, false), "x_bar_foo");
}

#[test]
fn find_replace_case_insensitive() {
    assert_eq!(find_replace("FooBar", "foo", "x", false, true), "xBar");
    assert_eq!(find_replace("FOO foo", "foo", "x", false, true), "x x");
}

#[test]
fn regex_groups() {
    let re = CompiledRegex::compile(r"(\d+)-(\d+)", false, false, false).unwrap();
    // Braces are required when a group number is followed by a word char, otherwise
    // `$2_` is parsed as a capture group *named* "2_".
    assert_eq!(regex_replace("12-34", &re, "${2}_${1}"), "34_12");
    assert_eq!(regex_replace("a-b", &re, "$2$1"), "a-b");
}

#[test]
fn case_modes() {
    assert_eq!(change_case("hello world", CaseMode::Title), "Hello World");
    assert_eq!(change_case("HELLO world", CaseMode::Sentence), "Hello world");
    assert_eq!(change_case("my_file name", CaseMode::Camel), "myFileName");
    assert_eq!(change_case("MyFileName", CaseMode::Snake), "my_file_name");
    assert_eq!(change_case("My File Name", CaseMode::Kebab), "my-file-name");
}

#[test]
fn insert_and_remove() {
    assert_eq!(insert("name", "pre_", InsertPosition::Prefix, 0), "pre_name");
    assert_eq!(insert("name", "X", InsertPosition::AtIndex, 2), "naXme");
    assert_eq!(remove("0123456789", RemoveFrom::Start, 3, 0), "3456789");
    assert_eq!(remove("0123456789", RemoveFrom::End, 3, 0), "0123456");
    assert_eq!(remove("0123456789", RemoveFrom::Index, 2, 3), "0125678 9".replace(' ', ""));
}

#[test]
fn cleanup_collapse_trim_spaces() {
    assert_eq!(clean_up("  a   b  ", true, true, Some("_"), false), "a_b");
    assert_eq!(clean_up("café", false, false, None, true), "cafe");
}

#[test]
fn counter_padding() {
    assert_eq!(counter_affix("img", 7, 3, "_", AffixPosition::Suffix), "img_007");
    assert_eq!(counter_affix("img", 12, 2, "-", AffixPosition::Prefix), "12-img");
}

#[test]
fn remove_undoes_insert() {
    let s = "photo";
    let p = insert(s, "IMG_", InsertPosition::Prefix, 0);
    assert_eq!(remove(&p, RemoveFrom::Start, 4, 0), s);
    let q = insert(s, "_v2", InsertPosition::Suffix, 0);
    assert_eq!(remove(&q, RemoveFrom::End, 3, 0), s);
    let r = insert(s, "--", InsertPosition::AtIndex, 2);
    assert_eq!(r, "ph--oto");
    assert_eq!(remove(&r, RemoveFrom::Index, 2, 2), s);
    let far = insert(s, "!", InsertPosition::AtIndex, 99);
    assert_eq!(far, "photo!");
    assert_eq!(remove(&far, RemoveFrom::Index, 1, 5), s);
}
