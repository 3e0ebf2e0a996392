use amity_fx::args::ArgsIter;
use amity_fx::command_error::LayerNameError;
use amity_fx::layer_name::{is_illegal_char, valid_layer_name, ILLEGAL_LAYER_NAME_CHARS};
use amity_fx::text::{is_whitespace, str_eq, str_trim, str_trim_end, str_trim_start};

fn args(line: &str) -> Vec<&str> {
    let mut it = ArgsIter::new(line);
    let mut out = Vec::new();
    while let Some(a) = it.next_arg() {
        out.push(a);
    }
    out
}

#[test]
fn args_split_on_white_space() {
    assert_eq!(args("mk  layer  *"), vec!["mk", "layer", "*"]);
    assert_eq!(args("   ls\t-a  "), vec!["ls", "-a"]);
    assert_eq!(args(""), Vec::<&str>::new());
    assert_eq!(args("    "), Vec::<&str>::new());
}

#[test]
fn args_keep_quoted_text_together() {
    assert_eq!(args("mk \"my layer\" next"), vec!["mk", "my layer", "next"]);
    assert_eq!(args("o \"a b"), vec!["o", "a b"]);
    assert_eq!(args("mk \"  padded  \""), vec!["mk", "  padded"]);
}

#[test]
fn args_stop_at_an_empty_argument() {
    // an empty quoted argument ends the sequence
    assert_eq!(args("a \"\" b"), vec!["a"]);
}

#[test]
fn args_stay_out_after_none() {
    let mut it = ArgsIter::new("a \"\" b");
    assert_eq!(it.next_arg(), Some("a"));
    assert_eq!(it.next_arg(), None);
    assert_eq!(it.next_arg(), None);
    assert_eq!(it.next_arg(), None);
}

#[test]
fn args_rest_shrinks() {
    let mut it = ArgsIter::new("x y");
    assert_eq!(it.next_arg(), Some("x"));
    assert_eq!(it.next_arg(), Some("y"));
    assert_eq!(it.next_arg(), None);
    assert_eq!(it.next_arg(), None);
}

#[test]
fn layer_names() {
    assert_eq!(valid_layer_name("  sky  ").unwrap(), "sky");
    assert_eq!(valid_layer_name("two words").unwrap(), "two words");
    assert_eq!(valid_layer_name(""), Err(LayerNameError::Empty));
    assert_eq!(valid_layer_name(" \t "), Err(LayerNameError::Empty));
    assert_eq!(valid_layer_name("a;b"), Err(LayerNameError::Illegal));
    assert_eq!(valid_layer_name("say \"hi\""), Err(LayerNameError::Illegal));
    assert_eq!(valid_layer_name("back\\slash"), Err(LayerNameError::Illegal));
    // surrounding white space is trimmed before the check
    assert_eq!(valid_layer_name("name\n").unwrap(), "name");
    assert_eq!(valid_layer_name("a\tb"), Err(LayerNameError::Illegal));
}

#[test]
fn illegal_chars() {
    for c in ILLEGAL_LAYER_NAME_CHARS {
        assert!(is_illegal_char(c));
    }
    assert!(!is_illegal_char('a'));
    assert!(!is_illegal_char(' '));
}

#[test]
fn trimming() {
    assert_eq!(str_trim("  a b \n"), "a b");
    assert_eq!(str_trim_start("\u{3000} x "), "x ");
    assert_eq!(str_trim_end(" x \u{85}"), " x");
    assert!(is_whitespace('\u{2028}'));
    assert!(!is_whitespace('x'));
    assert!(str_eq("abc", "abc"));
    assert!(!str_eq("abc", "abd"));
}
