use charmander::display::{classify, rendered_width, CharExt, DisplayType};

#[test]
fn combining_acute_accent_is_combining() {
    assert_eq!('\u{301}'.char_type(), DisplayType::Combining);
    assert!('\u{301}'.is_combining());
}

#[test]
fn bell_is_control_without_width() {
    assert_eq!('\u{7}'.char_type(), DisplayType::Control);
    assert_eq!(CharExt::width(&'\u{7}'), None);
    assert!(!'\u{7}'.is_combining());
}

#[test]
fn letters_are_normal() {
    for c in ['a', 'Z', ' ', '\u{E9}', '\u{20AC}', '\u{4E2D}', '\u{1D11E}'] {
        assert_eq!(c.char_type(), DisplayType::Normal, "{:?}", c);
        assert!(!c.is_combining());
    }
}

#[test]
fn control_characters_are_c0_del_and_c1() {
    for c in ['\u{0}', '\u{1F}', '\u{7F}', '\u{80}', '\u{9F}', '\n', '\t'] {
        assert_eq!(c.char_type(), DisplayType::Control, "{:?}", c);
        assert_eq!(CharExt::width(&c), None);
    }
    for c in ['\u{20}', '\u{7E}', '\u{A0}'] {
        assert_eq!(c.char_type(), DisplayType::Normal, "{:?}", c);
    }
}

#[test]
fn combining_marks_outside_the_first_block() {
    for c in ['\u{300}', '\u{36F}', '\u{483}', '\u{5B0}', '\u{20D0}', '\u{3099}', '\u{FE20}'] {
        assert_eq!(c.char_type(), DisplayType::Combining, "{:?}", c);
        assert!(c.is_combining());
    }
}

#[test]
fn narrow_and_wide_characters() {
    assert_eq!(CharExt::width(&'a'), Some(1));
    assert_eq!(CharExt::width(&'\u{E9}'), Some(1));
    assert_eq!(CharExt::width(&'\u{4E2D}'), Some(2));
    assert_eq!(CharExt::width(&'\u{FF21}'), Some(2));
    assert_eq!(CharExt::width(&'\u{1F600}'), Some(2));
}

#[test]
fn characters_of_no_width_have_none() {
    assert_eq!(CharExt::width(&'\u{301}'), None);
    assert_eq!(CharExt::width(&'\u{200B}'), None);
}

#[test]
fn classifier_gives_the_same_answer_each_time() {
    for c in ['\u{7}', '\u{301}', 'a', '\u{4E2D}', '\u{10FFFF}'] {
        let kind = c.char_type();
        let width = CharExt::width(&c);
        for _ in 0..3 {
            assert_eq!(c.char_type(), kind);
            assert_eq!(CharExt::width(&c), width);
        }
    }
}

#[test]
fn category_from_properties() {
    assert_eq!(classify(true, 0), DisplayType::Control);
    assert_eq!(classify(true, 230), DisplayType::Control);
    assert_eq!(classify(false, 230), DisplayType::Combining);
    assert_eq!(classify(false, 1), DisplayType::Combining);
    assert_eq!(classify(false, 255), DisplayType::Combining);
    assert_eq!(classify(false, 0), DisplayType::Normal);
}

#[test]
fn width_from_properties() {
    assert_eq!(rendered_width(true, None), None);
    assert_eq!(rendered_width(true, Some(1)), None);
    assert_eq!(rendered_width(false, None), None);
    assert_eq!(rendered_width(false, Some(0)), None);
    assert_eq!(rendered_width(false, Some(1)), Some(1));
    assert_eq!(rendered_width(false, Some(2)), Some(2));
}
