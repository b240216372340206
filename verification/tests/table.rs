use hyper_scripter::table::{Cell, Collumn, Table};
use hyper_scripter::word_wrap::split;

fn c(s: &str) -> Cell {
    Cell::new(s.to_owned())
}

#[test]
fn test_table() {
    fn one_test(width: u16) -> usize {
        const NAME: &str = "a/very/long/name/so/long/it/may/not/fit";
        let mut t = Table::new(vec![
            Collumn::new_fixed("name"),
            Collumn::new("type"),
            Collumn::new_fixed("write"),
            Collumn::new("execute"),
            Collumn::new("help msg"),
        ]);
        t.set_width(width);
        for _ in 0..5 {
            t.add_row(vec![
                c(NAME),
                c("docker"),
                c("12-08 2022"),
                c("12-08 2022(9999999)"),
                c("a super long 測試msg, so long this 測試訊息 can't even fit in, what a terrible測試的tragdy..."),
            ]);
            t.add_row(vec![
                c(NAME),
                c("another"),
                c("12-08 2022"),
                c("12-08 2022"),
                c("a super long msg, so long it can't even fit in, but luckily there's no unicode..."),
            ]);
            t.add_row(vec![
                c(NAME),
                c("docker"),
                c("12-08 2022"),
                c("12-08 2022(9999999)"),
                c("測試測試測試測試測試測試測試測試測試測試測試測試測試測試測試測試"),
            ]);
        }
        let s = t.display().to_string();
        assert_eq!(s.matches(NAME).count(), 15, "name shouldn't break...");
        println!("{}", s);
        s.lines().count()
    }

    for i in 1..10 {
        one_test(i * i * 4);
    }

    assert_eq!(one_test(0), 16);
    assert_eq!(one_test(50), 16, "screen too small, should fall back");
    assert_ne!(one_test(100), 16, "should be multi lines!");
    assert_eq!(one_test(400), 16);
}

#[test]
fn word_wrap_breaks_after_last_space() {
    let (a, b) = split("hello world again", 8);
    assert_eq!(a, "hello ");
    assert_eq!(b, "world again");
}

#[test]
fn word_wrap_keeps_short_text() {
    let (a, b) = split("short", 10);
    assert_eq!(a, "short");
    assert_eq!(b, "");
}

#[test]
fn word_wrap_cuts_a_long_word() {
    let (a, b) = split("abcdefghij", 4);
    assert_eq!(a, "abcd");
    assert_eq!(b, "efghij");
}

#[test]
fn table_title_is_cut_to_shared_width() {
    let mut t = Table::new(vec![Collumn::new_fixed("id"), Collumn::new("description")]);
    t.set_width(10);
    t.add_row(vec![c("1"), c("abc def ghi")]);
    let s = t.display().to_string();
    assert_eq!(s, "id  descri\n1   abc \n    def \n    ghi");
}

#[test]
fn try_to_string_checks_the_layout() {
    let mut t = Table::new(vec![Collumn::new_fixed("name"), Collumn::new("help")]);
    t.set_width(20);
    t.add_row(vec![c("abc"), c("a rather long help text")]);
    let shown = t.display();
    let text = shown.try_to_string();
    assert_eq!(text, Some(shown.to_string()));

    let mut t = Table::new(vec![Collumn::new("測試測試")]);
    t.set_width(4);
    let shown = t.display();
    assert!(shown.try_to_string().is_none());
    assert!(!shown.fits());
}

#[test]
fn narrow_column_keeps_its_own_width() {
    let mut t = Table::new(vec![Collumn::new("a"), Collumn::new("b")]);
    t.set_width(30);
    t.add_row(vec![c("x"), c("one two three four five six seven eight")]);
    let s = t.display().to_string();
    let lines: Vec<&str> = s.lines().collect();
    assert_eq!(lines[0], "a  b");
    assert_eq!(lines[1], "x  one two three four five ");
    assert_eq!(lines[2], "   six seven eight");
}
