use hyper_scripter::error::{exit_known_err, exit_ok, exit_other_err, Error, FormatCode};
use hyper_scripter::num::{decimal_string, parse_i64, parse_u32};
use hyper_scripter::query::{EditQuery, ListQuery, RangeQuery, ScriptQuery, ScriptQueryInner};
use hyper_scripter::script::{ConcreteScriptName, ScriptName};
use hyper_scripter::script_type::{default_script_types, DisplayTy, ScriptFullType, ScriptType};
use hyper_scripter::tag::{Tag, TagGroup, TagSelector, TagSelectorGroup, TagSet};
use hyper_scripter::util::illegal_name;

fn chars(s: &str) -> Vec<char> {
    s.chars().collect()
}

#[test]
fn exit_code_merge() {
    let mut code = exit_known_err();
    code.cmp_and_replace(exit_ok());
    assert_eq!(code, exit_known_err());
    code.cmp_and_replace(exit_other_err());
    assert_eq!(code, exit_other_err());
    assert_eq!(code.code(), 2);
}

#[test]
fn error_codes_and_context() {
    assert_eq!(Error::msg("x").code().code(), 2);
    assert_eq!(Error::Empty.code().code(), 1);
    assert_eq!(Error::ScriptError(7).code().code(), 7);
    match Error::msg("a").context("b") {
        Error::Others(m, None) => assert_eq!(m, vec!["a".to_owned(), "b".to_owned()]),
        _ => unreachable!(),
    }
    assert!(matches!(Error::Empty.context("b"), Error::Empty));
}

#[test]
fn script_name_parse() {
    let name = ScriptName::from_str(".42").unwrap();
    assert!(matches!(name, ScriptName::Anonymous(42)));
    let name = ScriptName::from_str("name").unwrap();
    assert_eq!(name.key(), "name");
    assert!(ScriptName::from_str(".0").is_err());
    assert!(matches!(ScriptName::from_str("a b"), Err(Error::Format(FormatCode::ScriptName, _))));
    assert!(ScriptName::from_str("a/-b").is_err());
}

#[test]
fn script_name_parts() {
    let name = ScriptName::from_str("a/b/c").unwrap();
    assert_eq!(name.namespaces(), vec!["a".to_owned(), "b".to_owned()]);
    assert!(!name.is_anonymous());
    assert!(ScriptName::Anonymous(3).is_anonymous());
    assert_eq!(ScriptName::Anonymous(3).key(), ".3");
    let types = default_script_types();
    assert_eq!(name.to_file_path(&ScriptType::new_unchecked("rb".to_owned()), &types).unwrap(), "a/b/c.rb");
    assert_eq!(
        ScriptName::Anonymous(3).to_file_path(&ScriptType::new_unchecked("txt".to_owned()), &types).unwrap(),
        ".anonymous/3"
    );
    let (p, e) = name.to_file_path_fallback(&ScriptType::new_unchecked("zz".to_owned()), &types);
    assert_eq!(p, "a/b/c.zz");
    assert!(matches!(e, Some(Error::UnknownType(_))));
}

#[test]
fn concrete_names() {
    let mut n = ConcreteScriptName::new("a/b".to_owned()).unwrap();
    assert_eq!(n.stem().as_str(), "b");
    n.join(&ConcreteScriptName::new("x/y".to_owned()).unwrap());
    assert_eq!(n.as_str(), "a/b/y");
    n.join_id(4);
    assert_eq!(n.as_str(), "a/b/y/4");
    assert_eq!(ConcreteScriptName::new_id(12).as_str(), "12");
    assert!(ConcreteScriptName::new("a/../b".to_owned()).is_err());
}

#[test]
fn illegal_names() {
    assert!(illegal_name(""));
    assert!(illegal_name("-a"));
    assert!(illegal_name(".a"));
    assert!(illegal_name("a..b"));
    assert!(illegal_name("a b"));
    assert!(illegal_name("a*"));
    assert!(!illegal_name("a-b.c"));
}

#[test]
fn script_types() {
    assert_eq!(ScriptType::default().as_ref(), "sh");
    let t = ScriptFullType::from_str("rb/traverse").unwrap();
    assert_eq!(t.to_string(), "rb/traverse");
    assert_eq!(ScriptFullType::default().to_string(), "sh");
    assert!(ScriptFullType::from_str("rb/a b").is_err());
    let ty = ScriptType::new_unchecked("js".to_owned());
    let sub = ScriptType::new_unchecked("x".to_owned());
    assert_eq!(DisplayTy(&ty, Some(&sub)).to_string(), "js/x");
    assert_eq!(DisplayTy(&ty, None).to_string(), "js");
}

#[test]
fn tags_and_selectors() {
    let s = TagSelector::from_str("+a,^b!,@rb").unwrap();
    assert!(s.append);
    assert_eq!(s.to_string(), "+a,^b!,@rb");
    let g = TagGroup::from_str("a,^b").unwrap();
    assert_eq!(g.to_string(), "a,^b");
    assert!(Tag::from_str("all").unwrap().match_all());
    assert!(Tag::from_str("a b").is_err());

    let mut set = TagSet::new();
    set.insert(Tag::new_unchecked("a".to_owned()));
    set.insert(Tag::new_unchecked("a".to_owned()));
    assert_eq!(set.to_vec().len(), 1);
    let rb = ScriptType::new_unchecked("rb".to_owned());
    let mut group = TagSelectorGroup::new();
    group.push(TagSelector::from_str("a").unwrap());
    assert!(group.select(&set, &rb));
    group.push(TagSelector::from_str("+^@rb!").unwrap());
    assert!(!group.select(&set, &rb));
    group.push(TagSelector::from_str("b").unwrap());
    assert!(!group.select(&set, &rb));
}

#[test]
fn selector_fills_tags() {
    let mut set = TagSet::new();
    set.insert(Tag::new_unchecked("x".to_owned()));
    TagSelector::from_str("+y,^x").unwrap().fill_allowed_map(&mut set);
    let v: Vec<String> = set.to_vec().iter().map(|t| t.as_ref().to_owned()).collect();
    assert_eq!(v, vec!["y".to_owned()]);
    let set = TagSelector::from_str("z,all").unwrap().into_allowed_set();
    assert_eq!(set.to_vec().len(), 1);
}

#[test]
fn script_queries() {
    let q = ScriptQuery::from_str("=a/b!").unwrap();
    assert!(q.bang);
    assert!(matches!(q.inner, ScriptQueryInner::Exact(_)));
    assert_eq!(q.to_string(), "=a/b!");
    assert!(matches!(ScriptQuery::from_str("^^^").unwrap().inner, ScriptQueryInner::Prev(3)));
    assert!(matches!(ScriptQuery::from_str("^4").unwrap().inner, ScriptQueryInner::Prev(4)));
    assert!(ScriptQuery::from_str("^0").is_err());
    assert!(matches!(ScriptQuery::from_str("-").unwrap().inner, ScriptQueryInner::Prev(1)));
    let bang = ScriptQuery::from_str("!").unwrap();
    assert!(bang.bang && matches!(bang.inner, ScriptQueryInner::Prev(1)));
    assert!(matches!(ScriptQuery::from_str("ab").unwrap().inner, ScriptQueryInner::Fuzz(_)));
    assert!(matches!(EditQuery::from_str(".").unwrap(), EditQuery::NewAnonimous));
    assert!(matches!(EditQuery::default(), EditQuery::Query(_)));
}

#[test]
fn list_queries() {
    match ListQuery::from_str("a*.b").unwrap() {
        ListQuery::Pattern(re, og, bang) => {
            assert_eq!(re.as_str(), "^a.*\\.b$");
            assert_eq!(og, "a*.b");
            assert!(!bang);
        }
        _ => unreachable!(),
    }
    match ListQuery::from_str("a*!").unwrap() {
        ListQuery::Pattern(re, og, bang) => {
            assert_eq!(re.as_str(), "^a.*$");
            assert_eq!(og, "a*!");
            assert!(bang);
        }
        _ => unreachable!(),
    }
    assert!(matches!(ListQuery::from_str("ab").unwrap(), ListQuery::Query(_)));
}

#[test]
fn range_queries() {
    let r = RangeQuery::from_str("3..7").unwrap();
    assert_eq!((r.get_min(), r.get_max()), (3, Some(7)));
    assert_eq!(r.to_string(), "3..7");
    let r = RangeQuery::from_str("..7").unwrap();
    assert_eq!(r.get_min(), 1);
    let r = RangeQuery::from_str("5").unwrap();
    assert_eq!((r.get_min(), r.get_max()), (5, Some(6)));
    assert_eq!(r.to_string(), "5..6");
    assert!(RangeQuery::from_str("..").is_err());
    assert!(RangeQuery::from_str("7..3").is_err());
    assert!(RangeQuery::from_str("0").is_err());
}

#[test]
fn numbers() {
    assert_eq!(parse_u32(&chars("+42")), Some(42));
    assert_eq!(parse_u32(&chars("4294967296")), None);
    assert_eq!(parse_i64(&chars("-9223372036854775808")), Some(i64::MIN));
    assert_eq!(parse_i64(&chars("12a")), None);
    assert_eq!(decimal_string(1234), "1234");
}
