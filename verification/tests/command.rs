use kstorage::command::{
    bind_args, flag_word, has_flag_attr, is_option, param_kind, parse_command_args, strip_flag_attr, ArgValue,
    ParamKind,
};

fn strings(v: &[&str]) -> Vec<String> {
    v.iter().map(|s| s.to_string()).collect()
}

fn pair(k: &str, v: &str) -> (String, String) {
    (k.to_string(), v.to_string())
}

#[test]
fn command_arguments_are_read() {
    let a = parse_command_args(&[
        pair("name", "echo"),
        pair("short", "Print text"),
        pair("long", "Prints text to screen"),
    ])
    .unwrap();
    assert_eq!(a.name, "echo");
    assert_eq!(a.short, "Print text");
    assert_eq!(a.long, "Prints text to screen");
}

#[test]
fn command_arguments_last_value_counts() {
    let a = parse_command_args(&[
        pair("long", "first"),
        pair("name", "ls"),
        pair("short", "List"),
        pair("long", "second"),
    ])
    .unwrap();
    assert_eq!(a.name, "ls");
    assert_eq!(a.long, "second");
}

#[test]
fn command_arguments_refuse_unknown_names() {
    let r = parse_command_args(&[pair("name", "x"), pair("colour", "red"), pair("size", "2")]);
    assert_eq!(r.unwrap_err(), "size");
    let r = parse_command_args(&[pair("colour", "red")]);
    assert_eq!(r.unwrap_err(), "colour");
}

#[test]
fn parameter_kinds() {
    assert!(is_option(&strings(&["core", "option", "Option"])));
    assert!(is_option(&strings(&["Option"])));
    assert!(!is_option(&strings(&["String"])));
    assert!(!is_option(&[]));
    assert!(has_flag_attr(&strings(&["doc", "flag"])));
    assert!(!has_flag_attr(&strings(&["my::flag", "doc"])));
    assert_eq!(param_kind(&strings(&["flag"]), &strings(&["bool"])), ParamKind::Flag);
    assert_eq!(param_kind(&[], &strings(&["Option"])), ParamKind::Optional);
    assert_eq!(param_kind(&[], &strings(&["u32"])), ParamKind::Required);
    assert_eq!(flag_word("upper"), "--upper");
}

#[test]
fn flag_attributes_are_stripped() {
    let mut attrs = strings(&["doc", "flag", "allow", "flag"]);
    strip_flag_attr(&mut attrs);
    assert_eq!(attrs, strings(&["doc", "allow"]));
}

fn echo_params() -> Vec<(String, ParamKind)> {
    vec![
        ("text".to_string(), ParamKind::Required),
        ("count".to_string(), ParamKind::Required),
        ("upper".to_string(), ParamKind::Flag),
    ]
}

#[test]
fn words_fill_parameters_in_order() {
    let v = bind_args(&["hello", "--upper", "3"], &echo_params()).unwrap();
    assert_eq!(
        v,
        vec![
            ArgValue::Word(Some("hello".to_string())),
            ArgValue::Word(Some("3".to_string())),
            ArgValue::Flag(true),
        ]
    );
    let v = bind_args(&["hi", "2"], &echo_params()).unwrap();
    assert_eq!(v[2], ArgValue::Flag(false));
}

#[test]
fn missing_required_word_names_the_parameter() {
    assert_eq!(bind_args(&["hello", "--upper"], &echo_params()), Err("count".to_string()));
    assert_eq!(bind_args(&[], &echo_params()), Err("text".to_string()));
}

#[test]
fn optional_parameters_take_none() {
    let params = vec![("path".to_string(), ParamKind::Optional), ("all".to_string(), ParamKind::Flag)];
    assert_eq!(
        bind_args(&["--all", "--other"], &params).unwrap(),
        vec![ArgValue::Word(None), ArgValue::Flag(true)]
    );
    assert_eq!(
        bind_args(&["/bin", "extra"], &params).unwrap(),
        vec![ArgValue::Word(Some("/bin".to_string())), ArgValue::Flag(false)]
    );
}
