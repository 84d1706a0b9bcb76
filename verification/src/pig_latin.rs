//! A pig-latin converter: each whitespace-separated word of the input is
//! transformed, and the words are joined back with single spaces.

use vstd::prelude::*;

use crate::text::{
    join_with, lemma_join_push, lemma_split_ws_from_words_nonempty, split_whitespace_of, split_ws,
};

verus! {

/// Whether `c` is one of the ten basic English vowel letters.
pub open spec fn is_vowel_char(c: char) -> bool {
    c == 'a' || c == 'e' || c == 'i' || c == 'o' || c == 'u' || c == 'A' || c == 'E' || c == 'I'
        || c == 'O' || c == 'U'
}

/// Whether `c` is one of the basic English vowels, in either case.
pub fn is_vowel(c: char) -> (r: bool)
    ensures
        r == is_vowel_char(c),
{
    matches!(c, 'a' | 'e' | 'i' | 'o' | 'u' | 'A' | 'E' | 'I' | 'O' | 'U')
}

/// The pig-latin form of one word: a word that starts with a vowel gets
/// `-hay` appended; otherwise its first letter moves to the end between `-`
/// and `ay`.
pub open spec fn pig_word(w: Seq<char>) -> Seq<char> {
    if w.len() == 0 {
        Seq::empty()
    } else if is_vowel_char(w[0]) {
        w + "-hay"@
    } else {
        w.drop_first() + "-"@ + seq![w[0]] + "ay"@
    }
}

/// The pig-latin form of a text: each word transformed, the words joined
/// with single spaces.
pub open spec fn pig_latin_of(s: Seq<char>) -> Seq<char> {
    join_with(split_ws(s).map_values(|w: Seq<char>| pig_word(w)), " "@)
}

/// Converts the text to pig latin, word by word.
pub fn convert_to_pig_latin(text: &str) -> (r: String)
    ensures
        r@ == pig_latin_of(text@),
{
    let ghost ws = split_ws(text@);
    let ghost pws = ws.map_values(|w: Seq<char>| pig_word(w));
    let words = split_whitespace_of(text);
    let mut out = String::new();
    let mut i: usize = 0;
    proof {
        lemma_split_ws_from_words_nonempty(text@, 0);
        assert(pws.take(0) =~= Seq::<Seq<char>>::empty());
    }
    while i < words.len()
        invariant
            i <= words.len(),
            words.deep_view() == ws,
            pws == ws.map_values(|w: Seq<char>| pig_word(w)),
            forall|k: int| 0 <= k < ws.len() ==> ws[k].len() > 0,
            out@ == join_with(pws.take(i as int), " "@),
        decreases words.len() - i,
    {
        let ghost before = out@;
        let w = words[i];
        proof {
            assert(w@ == ws[i as int]);
            assert(pws[i as int] == pig_word(w@));
            assert(pws.take(i + 1) =~= pws.take(i as int).push(pig_word(w@)));
            lemma_join_push(pws.take(i as int), " "@, pig_word(w@));
        }
        if i > 0 {
            out.append(" ");
        }
        let ghost started = out@;
        let wlen = w.unicode_len();
        let first = w.get_char(0);
        if is_vowel(first) {
            out.append(w);
            out.append("-hay");
            proof {
                assert(out@ =~= started + pig_word(w@));
            }
        } else {
            let rest = w.substring_char(1, wlen);
            out.append(rest);
            out.append("-");
            let fc = w.substring_char(0, 1);
            out.append(fc);
            out.append("ay");
            proof {
                assert(rest@ =~= w@.drop_first());
                assert(fc@ =~= seq![w@[0]]);
                assert(out@ =~= started + pig_word(w@));
            }
        }
        proof {
            if i == 0 {
                assert(out@ =~= join_with(pws.take(i + 1), " "@));
            } else {
                assert(before + " "@ + pig_word(w@) =~= out@);
            }
        }
        i += 1;
    }
    proof {
        assert(pws.take(words@.len() as int) =~= pws);
    }
    out
}

} // verus!
