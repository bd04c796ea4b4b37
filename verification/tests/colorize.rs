use termal::colorize::colorize;

#[test]
fn it_works() {
    println!(
        "{}",
        colorize("{'red}{}{'reset}", &vec!["hello".to_string()])
    );
}

#[test]
fn substitutes_codes_and_args() {
    assert_eq!(
        colorize("{'red}{}{'reset}", &vec!["hello".to_string()]),
        "\x1b[91mhello\x1b[0m"
    );
    assert_eq!(
        colorize("{'green}a{'blue}b", &vec![]),
        "\x1b[92ma\x1b[94mb"
    );
}

#[test]
fn plain_text_passes_through() {
    assert_eq!(colorize("hello there", &vec![]), "hello there");
    assert_eq!(colorize("", &vec![]), "");
}

#[test]
fn several_arguments_in_order() {
    assert_eq!(
        colorize("{} and {}", &vec!["one".to_string(), "two".to_string()]),
        "one and two"
    );
}

#[test]
fn missing_argument_becomes_nothing() {
    assert_eq!(colorize("a{}b", &vec![]), "ab");
}

#[test]
fn unknown_name_becomes_nothing() {
    assert_eq!(colorize("x{'nosuchcode}y", &vec![]), "xy");
}

#[test]
fn unclosed_placeholder_stays_literal() {
    assert_eq!(colorize("a{'red", &vec![]), "a{'red");
    assert_eq!(colorize("a{x", &vec![]), "a{x");
}
