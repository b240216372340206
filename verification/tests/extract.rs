use hyper_scripter::extract_msg::{
    extract_all_help_from_content, extract_env_from_content_help_aware, extract_help_from_content,
};

fn lines(content: &str) -> Vec<String> {
    content.lines().map(str::to_string).collect()
}

fn extract_help(content: &str, long: bool) -> Vec<String> {
    let v: Vec<String> = extract_help_from_content(lines(content)).iter().map(|x| x.to_string()).collect();
    if long {
        v
    } else {
        v.into_iter().take(1).collect()
    }
}

#[test]
fn test_extract_help() {
    let content = "

        // [HS_HELP]:   解析我吧  

        // [HS_HELP]:
        // [HS_HELP]: 第二行
        // [HS_NOHELP]: 不要解析我QQ
        // [HS_HELP]: 我沒救了";
    let short = extract_help(content, false);
    let long = extract_help(content, true);
    assert_eq!(short, vec!["  解析我吧  "]);
    assert_eq!(long, vec!["  解析我吧  ", "", "第二行",]);
}

#[test]
fn test_extract_empty() {
    let content = "
        // 不要解析我
        fn this_is_a_test() -> bool {}

        // [HS_HELP]:我是最後一行";
    let short = extract_help(content, false);
    let long = extract_help(content, true);
    assert_eq!(short.len(), 0);
    assert_eq!(long.len(), 0);
}

#[test]
fn test_extract_env() {
    let content = "
        [HS_ENV_HELP]: env_help1
        [HS_ENV]: env1

        [HS_ENV]: env2
        [HS_HELP]: this is a help
        [HS_ENV_HELP]: env_help2

        [HS_ENV_HELP]: env_help3
        [HS_HELP]: this is a help
        [HS_ENV]: env3
        [HS_ENV_HELP]: env_help4

        掰
        [HS_ENV]: this is useless
        ";
    let mut v: Vec<(bool, String)> = extract_env_from_content_help_aware(lines(content))
        .iter()
        .map(|(x, y)| (*x, y.to_string()))
        .collect();
    v.sort();
    let v: Vec<(bool, &str)> = v.iter().map(|(x, y)| (*x, y.as_str())).collect();
    assert_eq!(
        v,
        vec![
            (false, "env_help1"),
            (false, "env_help2"),
            (false, "env_help3"),
            (false, "env_help4"),
            (true, "env1"),
            (true, "env2"),
            (true, "env3"),
        ]
    );
}

#[test]
fn all_messages_carry_their_key() {
    let content = "# [HS_HELP]: a\n# [HS_ENV]: B\n# [HS_ENV_HELP]: c\nstop\n# [HS_HELP]: late";
    let v: Vec<(usize, String)> =
        extract_all_help_from_content(lines(content)).iter().map(|(k, m)| (*k, m.to_string())).collect();
    assert_eq!(v, vec![(0, "a".to_string()), (1, "B".to_string()), (2, "c".to_string())]);
}
