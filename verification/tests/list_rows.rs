use hyper_scripter::color::Color;
use hyper_scripter::config::Recent;
use hyper_scripter::list::{build_forest, DisplayIdentStyle, Grouping, TagsKey};
use hyper_scripter::list_impl::{
    group_title, latest_script_id, list_groups, meta_row, meta_short, time_filter_note, tree_row,
};
use hyper_scripter::repo::{RecentFilter, ScriptRepo};
use hyper_scripter::script::{string_into_script_name, ScriptInfo};
use hyper_scripter::script_type::ScriptType;
use hyper_scripter::table::Cell;
use hyper_scripter::tag::{Tag, TagSelector, TagSelectorGroup, TagSet};
use hyper_scripter::tree_lib::TreeItem;

fn script(id: i64, name: &str, tags: &[&str], time: i64, runs: Option<u64>) -> ScriptInfo {
    let mut set = TagSet::new();
    for t in tags {
        set.insert(Tag::new_unchecked(t.to_string()));
    }
    ScriptInfo {
        id,
        hash: 0,
        name: string_into_script_name(name.to_owned(), true).unwrap(),
        ty: ScriptType::new_unchecked("sh".to_owned()),
        tags: set,
        created_time: 0,
        read_time: time,
        write_time: time,
        exec_time: runs.map(|_| time),
        exec_done_time: None,
        neglect_time: None,
        humble_time: None,
        exec_count: runs.unwrap_or(0),
    }
}

fn names(v: &[&ScriptInfo]) -> Vec<String> {
    v.iter().map(|s| s.name.key()).collect()
}

fn cells(row: &[Cell]) -> Vec<String> {
    row.iter().map(|c| format!("{:?}", c)).collect()
}

#[test]
fn flat_listing_is_latest_first() {
    let v = vec![script(1, "a", &[], 10, None), script(2, "b", &[], 30, None), script(3, "c", &[], 20, None)];
    let refs: Vec<&ScriptInfo> = v.iter().collect();
    let groups = list_groups(refs.clone(), false, Grouping::Flat);
    assert_eq!(groups.len(), 1);
    assert!(groups[0].0.is_none());
    assert_eq!(names(&groups[0].1), vec!["b", "c", "a"]);

    let groups = list_groups(refs, true, Grouping::Flat);
    assert_eq!(names(&groups[0].1), vec!["a", "b", "c"]);
}

#[test]
fn tag_listing_groups_in_order() {
    let v = vec![
        script(1, "a", &["x"], 10, Some(5)),
        script(2, "b", &[], 30, None),
        script(3, "c", &["y"], 20, Some(1)),
        script(4, "d", &["x"], 40, Some(2)),
    ];
    let refs: Vec<&ScriptInfo> = v.iter().collect();
    let groups = list_groups(refs, false, Grouping::Tag);
    let titles: Vec<String> = groups.iter().map(|g| g.0.as_ref().unwrap().to_string()).collect();
    assert_eq!(titles, vec!["(no tag)", "[#y]", "[#x]"]);
    assert_eq!(names(&groups[2].1), vec!["d", "a"]);
    assert_eq!(group_title(groups[2].0.as_ref().unwrap(), true), "[#x]");
    assert_eq!(
        group_title(groups[2].0.as_ref().unwrap(), false),
        "\u{1b}[2;3m[#x]\u{1b}[0m"
    );
}

#[test]
fn time_filter_note_text() {
    let filter = RecentFilter { recent: Recent::Days(3), archaeology: true };
    assert_eq!(
        time_filter_note(false, 2, &filter).unwrap(),
        "2 scripts ignored due to time filter: 3 days (archaeology)\n"
    );
    assert!(time_filter_note(true, 2, &filter).is_none());
    assert!(time_filter_note(false, 0, &filter).is_none());
}

#[test]
fn latest_shown_script_id() {
    let v = vec![script(1, "a", &[], 10, None), script(2, "b", &[], 30, None)];
    let mut sel = TagSelectorGroup::new();
    sel.push(TagSelector::from_str("all").unwrap());
    let repo = ScriptRepo::new(RecentFilter::default(), v, &sel, 100);
    assert_eq!(latest_script_id(&repo), 2);
    let repo = ScriptRepo::new(RecentFilter::default(), vec![], &sel, 100);
    assert_eq!(latest_script_id(&repo), -1);
}

#[test]
fn long_and_short_entries() {
    let s = script(1, "dir/a", &[], 10, None);
    let row = meta_row(&s, true, true, Color::Red, "sh", "10:00", "Never", "help".to_owned());
    assert_eq!(
        cells(&row),
        vec![
            format!("{:?}", Cell::new_with_len("  dir/a".to_owned(), 7)),
            format!("{:?}", Cell::new_with_len("sh".to_owned(), 2)),
            format!("{:?}", Cell::new("10:00".to_owned())),
            format!("{:?}", Cell::new("Never".to_owned())),
            format!("{:?}", Cell::new("help".to_owned())),
        ]
    );
    let row = meta_row(&s, true, false, Color::Red, "sh", "10:00", "Never", String::new());
    assert_eq!(
        format!("{:?}", row[0]),
        format!(
            "{:?}",
            Cell::new_with_len("\u{1b}[1;33m *\u{1b}[0m\u{1b}[1;4;31mdir/a\u{1b}[0m".to_owned(), 7)
        )
    );

    let (t, w) = meta_short(&s, DisplayIdentStyle::Normal, "sh", "dir/a.sh", true, true, Color::Red);
    assert_eq!((t.as_str(), w), ("dir/a(sh)", 9));
    let (t, w) = meta_short(&s, DisplayIdentStyle::NameAndFile, "sh", "dir/a.sh", false, true, Color::Red);
    assert_eq!((t.as_str(), w), ("dir/a(dir/a.sh)", 15));
}

#[test]
fn long_tree_rows() {
    let v = vec![script(1, "dir/a", &[], 10, Some(1))];
    let root = build_forest(v.iter().collect());
    let lines = root.fmt();
    let mut rows = vec![];
    for line in lines.iter() {
        let row = tree_row(line, false, true, Color::Red, "sh", "w", "e", String::new());
        let first = format!("{:?}", row[0]);
        rows.push((first, row.len(), matches!(line.item, TreeItem::Leaf(_))));
    }
    assert_eq!(rows.len(), 3);
    assert_eq!(rows[0], (format!("{:?}", Cell::new_with_len(".".to_owned(), 1)), 1, false));
    assert_eq!(rows[1], (format!("{:?}", Cell::new_with_len("└── dir".to_owned(), 7)), 1, false));
    assert_eq!(rows[2], (format!("{:?}", Cell::new_with_len("   └── a".to_owned(), 8)), 5, true));
}

#[test]
fn tags_key_title() {
    let mut set = TagSet::new();
    set.insert(Tag::new_unchecked("b".to_owned()));
    set.insert(Tag::new_unchecked("a".to_owned()));
    assert_eq!(TagsKey::new(&set).to_string(), "[#a #b]");
}
