//! The Twelve Days of Christmas: the verse for one day of the song, as a
//! single string; printing it is the caller's business.

use vstd::prelude::*;
use vstd::string::StringExecFns;

verus! {

/// The ordinal name of a day of the song.
pub open spec fn day_name(i: int) -> Seq<char> {
    if i == 0 {
        "first"@
    } else if i == 1 {
        "second"@
    } else if i == 2 {
        "third"@
    } else if i == 3 {
        "fourth"@
    } else if i == 4 {
        "fifth"@
    } else if i == 5 {
        "sixth"@
    } else if i == 6 {
        "seventh"@
    } else if i == 7 {
        "eighth"@
    } else if i == 8 {
        "ninth"@
    } else if i == 9 {
        "tenth"@
    } else if i == 10 {
        "eleventh"@
    } else {
        "twelfth"@
    }
}

/// The gift of a day of the song.
pub open spec fn gift(i: int) -> Seq<char> {
    if i == 0 {
        "a partridge in a pear tree"@
    } else if i == 1 {
        "Two turtle doves"@
    } else if i == 2 {
        "Three French hens"@
    } else if i == 3 {
        "Four calling birds"@
    } else if i == 4 {
        "Five golden rings"@
    } else if i == 5 {
        "Six geese a-laying"@
    } else if i == 6 {
        "Seven swans a-swimming"@
    } else if i == 7 {
        "Eight maids a-milking"@
    } else if i == 8 {
        "Nine ladies dancing"@
    } else if i == 9 {
        "Ten lords a-leaping"@
    } else if i == 10 {
        "Eleven pipers piping"@
    } else {
        "Twelve drummers drumming"@
    }
}

/// One gift line of the verse for day `day`: the last line opens with `And`
/// on every day but the first, the first day's gift is capitalized, and every
/// line but the last ends in a comma.
pub open spec fn gift_line(day: int, gi: int) -> Seq<char> {
    (if gi == 0 && day > 0 {
        "And "@
    } else {
        Seq::empty()
    }) + (if gi == 0 && day == 0 {
        "A partridge in a pear tree"@
    } else {
        gift(gi)
    }) + (if gi > 0 {
        ",\n"@
    } else {
        Seq::empty()
    })
}

/// The gift lines of the verse for day `day`, from day `gi` down to the
/// first day.
pub open spec fn gift_lines_down(day: int, gi: int) -> Seq<char>
    decreases gi,
        when gi >= 0
{
    if gi == 0 {
        gift_line(day, 0)
    } else {
        gift_line(day, gi) + gift_lines_down(day, gi - 1)
    }
}

/// The verse's closing: an exclamation mark on the last day, a full stop and
/// a blank line on every other.
pub open spec fn verse_ending(day: int) -> Seq<char> {
    if day == 11 {
        "!\n"@
    } else {
        ".\n\n"@
    }
}

/// The whole verse for day `day`.
pub open spec fn spec_lyrics(day: int) -> Seq<char> {
    "On the "@ + day_name(day) + " day of Christmas,\n"@ + "my true love sent to me\n"@
        + gift_lines_down(day, day) + verse_ending(day)
}

/// The ordinal name of a day of the song.
fn day_name_of(i: usize) -> (r: &'static str)
    requires
        i < 12,
    ensures
        r@ == day_name(i as int),
{
    match i {
        0 => "first",
        1 => "second",
        2 => "third",
        3 => "fourth",
        4 => "fifth",
        5 => "sixth",
        6 => "seventh",
        7 => "eighth",
        8 => "ninth",
        9 => "tenth",
        10 => "eleventh",
        _ => "twelfth",
    }
}

/// The gift of a day of the song.
fn gift_of(i: usize) -> (r: &'static str)
    requires
        i < 12,
    ensures
        r@ == gift(i as int),
{
    match i {
        0 => "a partridge in a pear tree",
        1 => "Two turtle doves",
        2 => "Three French hens",
        3 => "Four calling birds",
        4 => "Five golden rings",
        5 => "Six geese a-laying",
        6 => "Seven swans a-swimming",
        7 => "Eight maids a-milking",
        8 => "Nine ladies dancing",
        9 => "Ten lords a-leaping",
        10 => "Eleven pipers piping",
        _ => "Twelve drummers drumming",
    }
}

/// Builds the verse for the given day, counting from zero; the song has
/// twelve days.
pub fn lyrics_for_day(day_index: usize) -> (r: String)
    requires
        day_index < 12,
    ensures
        r@ == spec_lyrics(day_index as int),
{
    let mut out = String::from_str("On the ");
    out.append(day_name_of(day_index));
    out.append(" day of Christmas,\n");
    out.append("my true love sent to me\n");

    let ghost header = out@;
    let mut gi = day_index + 1;
    while gi > 0
        invariant
            gi <= day_index + 1,
            day_index < 12,
            gi >= 1 ==> out@ + gift_lines_down(day_index as int, gi - 1) == header
                + gift_lines_down(day_index as int, day_index as int),
            gi == 0 ==> out@ == header + gift_lines_down(day_index as int, day_index as int),
        decreases gi,
    {
        gi -= 1;
        let ghost before = out@;
        if gi == 0 && day_index > 0 {
            out.append("And ");
        }
        if gi == 0 && day_index == 0 {
            out.append("A partridge in a pear tree");
        } else if gi == 0 {
            out.append("a partridge in a pear tree");
        } else {
            out.append(gift_of(gi));
        }
        if gi > 0 {
            out.append(",\n");
        }
        proof {
            assert(out@ =~= before + gift_line(day_index as int, gi as int));
            if gi >= 1 {
                assert(before + (gift_line(day_index as int, gi as int) + gift_lines_down(
                    day_index as int,
                    gi - 1,
                )) =~= out@ + gift_lines_down(day_index as int, gi - 1));
            }
        }
    }
    out.append(if day_index == 11 {
        "!\n"
    } else {
        ".\n\n"
    });
    proof {
        assert(out@ =~= spec_lyrics(day_index as int));
    }
    out
}

} // verus!
