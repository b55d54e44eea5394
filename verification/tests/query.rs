use mcproxy::query::readable;

fn nested(depth: usize, inner: &str) -> String {
    format!("{}{}{}", "(".repeat(depth), inner, ")".repeat(depth))
}

#[test]
fn ordinary_texts_are_readable() {
    for text in [
        "",
        " ",
        "file search",
        "open AND (file OR folder)",
        "name:one -two +three^2",
        "name:(one OR two)",
        "\"a phrase\"~2 'another'",
        "[a TO b] >=c <'d",
        "f:IN [a 'b' \"c\"]",
        "a don't ) ( \\",
    ] {
        assert!(readable(text), "{:?}", text);
    }
    assert!(readable(&"word ".repeat(100_000)));
    assert!(readable(&"line\n".repeat(10_000)));
}

#[test]
fn the_time_doubles_with_each_group_that_is_a_first_leaf() {
    assert!(readable(&nested(13, "a")));
    assert!(readable(&nested(24, "a")));
    assert!(!readable(&nested(25, "a")));
    assert!(readable(&"(".repeat(24)));
    assert!(!readable(&"(".repeat(25)));
    assert!(!readable(&"+f:(".repeat(25)));
    assert!(!readable(&"NOT (".repeat(25)));
    // As a later leaf a group is read no more often than what is around it.
    for piece in ["a (", "a AND (", "a f:(", "a\n(", "'a' (", "(b) (", "a^2 (", "* ("] {
        assert!(readable(&piece.repeat(100)), "{:?}", piece);
    }
}

#[test]
fn each_group_takes_some_of_the_stack() {
    assert!(readable(&"a (".repeat(128)));
    assert!(!readable(&"a (".repeat(129)));
    let closed = format!("{}b{}", "a (".repeat(128), ")".repeat(128));
    assert!(readable(&format!("{} {}", closed, closed)));
    assert!(readable(&"(a) ".repeat(5000)));
}

#[test]
fn brackets_in_phrases_and_behind_backslashes_are_plain() {
    assert!(readable(&"('a') ".repeat(1000)));
    assert!(readable(&"(a \"(((\") ".repeat(1000)));
    assert!(readable(&format!("a \"{}\" '{}'", "(".repeat(1000), "(".repeat(1000))));
    assert!(readable(&"a \\( ".repeat(1000)));
    assert!(readable(&format!("\"\\\"{}\"", "(".repeat(1000))));
    // These close nothing.
    assert!(!readable(&"(')' ".repeat(129)));
    assert!(!readable(&"(a \\) ".repeat(129)));
    // A mark of another kind ends no phrase.
    assert!(readable(&format!("\"'\" 'a \" {}'", "(".repeat(1000))));
    assert!(!readable(&format!("\"'\" 'a' {}", "(a ".repeat(200))));
}

#[test]
fn behind_a_mark_that_may_be_in_a_range_every_bracket_may_be_a_group() {
    assert!(readable(&format!(">a {}", "(b) ".repeat(1000))));
    assert!(readable(&format!(">a' {}", "(b) ".repeat(20))));
    assert!(!readable(&format!(">a' {}", "(' ) ' ".repeat(200))));
    assert!(!readable(&format!("a >b\\{}", "(' ) ' ".repeat(200))));
}

#[test]
fn each_not_in_front_of_another_takes_some_of_the_stack() {
    assert!(readable(&format!("a {}b", "NOT ".repeat(257))));
    assert!(readable(&format!("a {}b", "NOT ".repeat(640))));
    assert!(!readable(&format!("a {}b", "NOT ".repeat(641))));
    // These are behind each other.
    assert!(readable(&"NOT a ".repeat(5000)));
    assert!(readable(&"NOT a\n".repeat(5000)));
    assert!(readable(&"not ".repeat(5000)));
    assert!(!readable(&"a NOT NOT (".repeat(92)));
    assert!(readable(&"a NOT NOT (".repeat(91)));
}

#[test]
fn a_name_may_start_with_each_not_before_it() {
    let groups = |count: usize| "NOT\tNOT\tNOT\tf:(".repeat(count);
    assert!(readable(&groups(8)));
    assert!(!readable(&groups(9)));
    assert!(!readable(&groups(12)));
    assert!(!readable(&format!("{}f:(", "NOT\n".repeat(20)).repeat(12)));
    // There is no name with a space in it.
    assert!(readable(&"NOT NOT NOT f:(".repeat(24)));
}

#[test]
fn a_lone_star_behind_a_sign_is_not_readable() {
    for text in [
        "- *",
        "+ *",
        "a - *",
        "(- *)",
        "-\t\r\n *",
        "- * a",
        "- *\u{3000}",
        "- *(a)",
        "- *\"a\"",
        "a AND - *",
        "a OR + *",
        "a (b)- *",
        "a 'b'- *",
        "a 'b'~2- *",
        "a b^2- *",
        "a *- *",
        "a\t- *",
        "a [b TO c]- *",
        "a f:-5- *",
        "a NOT -5- *",
        "a --5- *",
        "a >-5- *",
        "a >b:\t- *",
        "aNOT - *",
    ] {
        assert!(!readable(text), "{:?}", text);
    }
    for text in [
        "-*", "- *a", "a- *", "a*- *", "f:- *", "f: *", "- a *", "-+ *", "a\\- *", "'- *'",
        "\"a - * b\"", "* - a", "a - b * c", "5- *", "-5- *", "* * *",
    ] {
        assert!(readable(text), "{:?}", text);
    }
}
