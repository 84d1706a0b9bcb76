use exercises::pig_latin::convert_to_pig_latin;

#[test]
fn vowel_apple() {
    assert_eq!(convert_to_pig_latin("apple"), "apple-hay");
}

#[test]
fn consonant_first() {
    assert_eq!(convert_to_pig_latin("first"), "irst-fay");
}

#[test]
fn several_words() {
    assert_eq!(
        convert_to_pig_latin("this is an apple"),
        "his-tay is-hay an-hay apple-hay"
    );
}

#[test]
fn uppercase_vowel() {
    assert_eq!(convert_to_pig_latin("Apple"), "Apple-hay");
}

#[test]
fn empty_text_stays_empty() {
    assert_eq!(convert_to_pig_latin(""), "");
    assert_eq!(convert_to_pig_latin("   "), "");
}

#[test]
fn extra_whitespace_collapses() {
    assert_eq!(convert_to_pig_latin("  hello   world  "), "ello-hay orld-way");
}
