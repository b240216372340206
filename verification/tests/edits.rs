use hyper_scripter::config::Config;
use hyper_scripter::error::Error;
use hyper_scripter::event::time_changed;
use hyper_scripter::extract_msg::first_help;
use hyper_scripter::list::{display_style_of, DisplayIdentStyle, DisplayStyle};
use hyper_scripter::repo::rm_plan;
use hyper_scripter::script::{string_into_script_name, ScriptName};
use hyper_scripter::script_type::{sub_type_of, types_line};
use std::cmp::Ordering;
use hyper_scripter::tag::TagSelector;

#[test]
fn alias_edits() {
    let mut conf = Config::default();
    assert_eq!(conf.alias_line("la").unwrap(), "la\tls -a");
    conf.set_alias("la".to_owned(), vec!["ls".to_owned(), "--all".to_owned()]);
    assert_eq!(conf.alias_line("la").unwrap(), "la\tls --all");
    conf.set_alias("zz".to_owned(), vec!["edit".to_owned()]);
    assert_eq!(conf.alias_lines().last().unwrap(), "zz\tedit");
    assert!(conf.unset_alias("zz").is_ok());
    assert!(matches!(conf.unset_alias("zz"), Err(Error::NoAlias(n)) if n == "zz"));
    assert!(matches!(conf.alias_line("zz"), Err(Error::NoAlias(_))));
}

#[test]
fn selector_edits() {
    let mut conf = Config::default();
    assert!(conf.toggle_selector("pin").is_ok());
    assert!(conf.tag_selectors[0].inactivated);
    assert!(conf.toggle_selector("pin").is_ok());
    assert!(!conf.tag_selectors[0].inactivated);
    assert!(matches!(conf.toggle_selector("nope"), Err(Error::TagSelectorNotFound(_))));

    conf.set_selector(Some("mine".to_owned()), TagSelector::from_str("+a").unwrap());
    assert_eq!(conf.tag_selectors.last().unwrap().name, "mine");
    assert_eq!(conf.tag_selectors.last().unwrap().content.to_string(), "+a");
    conf.set_selector(Some("mine".to_owned()), TagSelector::from_str("b").unwrap());
    assert_eq!(conf.tag_selectors.len(), 4);
    assert_eq!(conf.tag_selectors[3].content.to_string(), "b");
    conf.set_selector(None, TagSelector::from_str("c").unwrap());
    assert_eq!(conf.main_tag_selector.to_string(), "c");

    assert!(conf.unset_selector("mine").is_ok());
    assert_eq!(conf.tag_selectors.len(), 3);
    assert!(matches!(conf.unset_selector("mine"), Err(Error::TagSelectorNotFound(n)) if n == "mine"));
}

#[test]
fn listing_style_from_flags() {
    assert!(matches!(display_style_of(true, false, false), DisplayStyle::Long(())));
    assert!(matches!(display_style_of(false, true, true), DisplayStyle::Short(DisplayIdentStyle::NameAndFile, ())));
    assert!(matches!(display_style_of(false, true, false), DisplayStyle::Short(DisplayIdentStyle::File, ())));
    assert!(matches!(display_style_of(false, false, true), DisplayStyle::Short(DisplayIdentStyle::Name, ())));
    assert!(matches!(display_style_of(false, false, false), DisplayStyle::Short(DisplayIdentStyle::Normal, ())));
}

#[test]
fn types_listing() {
    let types = vec![("sh".to_owned(), vec!["a".to_owned(), "b".to_owned()]), ("js".to_owned(), vec![])];
    assert_eq!(types_line(&types, false), "sh sh/a sh/b js");
    assert_eq!(types_line(&types, true), "sh js");
}

#[test]
fn removal_plans() {
    let p = rm_plan(true, false, Ok("/h/a.sh".to_owned()));
    assert_eq!((p.purge, p.hide), (Some(Some("/h/a.sh".to_owned())), false));
    let p = rm_plan(false, true, Err(Error::PathNotFound(vec![])));
    assert_eq!((p.purge, p.hide), (Some(None), false));
    let p = rm_plan(false, false, Err(Error::PathNotFound(vec![])));
    assert_eq!((p.purge, p.hide), (Some(None), true));
    let p = rm_plan(false, false, Err(Error::UnknownType("x".to_owned())));
    assert_eq!((p.purge, p.hide), (None, true));
    let p = rm_plan(false, false, Ok("/h/a.sh".to_owned()));
    assert_eq!((p.purge, p.hide), (None, true));
}

#[test]
fn changed_times() {
    assert!(!time_changed((Some(1), None, Some(2)), (Some(1), None, Some(2))));
    assert!(time_changed((Some(1), None, Some(2)), (Some(1), Some(3), Some(2))));
    assert!(time_changed((None, None, None), (Some(0), None, None)));
}

#[test]
fn first_help_message() {
    let lines = vec!["".to_owned(), "# [HS_HELP]: does it".to_owned(), "# [HS_HELP]: more".to_owned()];
    assert_eq!(first_help(vec!["#!/bin/bash".to_owned(), "# [HS_HELP]: late".to_owned()]), "");
    assert_eq!(first_help(lines), "does it");
    assert_eq!(first_help(vec!["echo".to_owned()]), "");
}

#[test]
fn name_ordering() {
    let a = string_into_script_name("a/b".to_owned(), true).unwrap();
    let b = string_into_script_name("a/c".to_owned(), true).unwrap();
    let anon = ScriptName::Anonymous(3);
    assert_eq!(a.partial_cmp(&b), Some(Ordering::Less));
    assert_eq!(b.partial_cmp(&a), Some(Ordering::Greater));
    assert_eq!(a.partial_cmp(&a), Some(Ordering::Equal));
    assert_eq!(a.partial_cmp(&anon), Some(Ordering::Less));
    assert_eq!(anon.partial_cmp(&ScriptName::Anonymous(2)), Some(Ordering::Greater));
}

#[test]
fn template_sub_types() {
    assert_eq!(sub_type_of("cli.hbs").unwrap().unwrap().as_ref(), "cli");
    assert!(sub_type_of("notes.txt").is_none());
    assert!(sub_type_of("a b.hbs").unwrap().is_err());
}
