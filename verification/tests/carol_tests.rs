use exercises::carol::lyrics_for_day;

#[test]
fn first_day_verse() {
    assert_eq!(
        lyrics_for_day(0),
        "On the first day of Christmas,\nmy true love sent to me\nA partridge in a pear tree.\n\n"
    );
}

#[test]
fn second_day_verse() {
    assert_eq!(
        lyrics_for_day(1),
        "On the second day of Christmas,\nmy true love sent to me\nTwo turtle doves,\nAnd a partridge in a pear tree.\n\n"
    );
}

#[test]
fn last_day_verse_ends_with_exclamation() {
    let verse = lyrics_for_day(11);
    assert!(verse.starts_with("On the twelfth day of Christmas,\nmy true love sent to me\nTwelve drummers drumming,\n"));
    assert!(verse.ends_with("And a partridge in a pear tree!\n"));
}
