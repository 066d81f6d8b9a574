use ulti::font::{parse_font, preferred_face};
use ulti::session::shell_program;

#[test]
fn bytes_that_are_no_font_do_not_parse() {
    assert!(parse_font(&[]).is_err());
    assert!(parse_font(b"not a font at all").is_err());
}

#[test]
fn the_first_family_found_is_preferred() {
    assert_eq!(preferred_face(&[None, Some(7u32), Some(3u32)]), Some(7));
    assert_eq!(preferred_face(&[Some(1u32), Some(2u32)]), Some(1));
    assert_eq!(preferred_face::<u32>(&[None, None, None]), None);
    assert_eq!(preferred_face::<u32>(&[]), None);
}

#[test]
fn shell_falls_back_to_fish() {
    assert_eq!(shell_program(Some(String::from("/bin/zsh"))), "/bin/zsh");
    assert_eq!(shell_program(None), "/bin/fish");
}
