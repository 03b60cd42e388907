use vstd::prelude::*;

verus! {

/// Length of the UTF-8 encoded white-space character that starts at `i` in `s`,
/// or 0 if none does. The characters are those of Unicode's White_Space
/// property: U+0009..U+000D, U+0020, U+0085, U+00A0, U+1680, U+2000..U+200A,
/// U+2028, U+2029, U+202F, U+205F and U+3000.
pub open spec fn space_len(s: Seq<u8>, i: int) -> nat {
    let b0 = s[i];
    if 0 <= i < s.len() && ((9 <= b0 && b0 <= 13) || b0 == 32) {
        1
    } else if 0 <= i && i + 1 < s.len() && b0 == 0xc2 && (s[i + 1] == 0x85 || s[i + 1] == 0xa0) {
        2
    } else if 0 <= i && i + 2 < s.len() && (
    (b0 == 0xe1 && s[i + 1] == 0x9a && s[i + 2] == 0x80) || (b0 == 0xe2 && s[i + 1] == 0x80 && (
    (0x80 <= s[i + 2] && s[i + 2] <= 0x8a) || s[i + 2] == 0xa8 || s[i + 2] == 0xa9 || s[i + 2]
        == 0xaf)) || (b0 == 0xe2 && s[i + 1] == 0x81 && s[i + 2] == 0x9f) || (b0 == 0xe3 && s[i
        + 1] == 0x80 && s[i + 2] == 0x80)) {
        3
    } else {
        0
    }
}

/// The words of `s` from index `i` on, where `word` holds the bytes of the word
/// in progress: the maximal runs without white space, empty runs left out.
pub open spec fn words_from(s: Seq<u8>, i: int, word: Seq<u8>) -> Seq<Seq<u8>>
    decreases s.len() - i,
{
    let done = if word.len() > 0 { seq![word] } else { Seq::empty() };
    if i < 0 || i >= s.len() {
        done
    } else if space_len(s, i) > 0 {
        done + words_from(s, i + space_len(s, i), Seq::empty())
    } else {
        words_from(s, i + 1, word.push(s[i]))
    }
}

/// The white-space separated words of `s`.
pub open spec fn words_of(s: Seq<u8>) -> Seq<Seq<u8>> {
    words_from(s, 0, Seq::empty())
}

/// Length of the white-space character at `i`, or 0.
fn space_at(s: &Vec<u8>, i: usize) -> (r: usize)
    requires
        i < s@.len(),
    ensures
        r == space_len(s@, i as int),
{
    let n = s.len();
    let b0 = s[i];
    if (9 <= b0 && b0 <= 13) || b0 == 32 {
        1
    } else if n - i > 1 && b0 == 0xc2 && (s[i + 1] == 0x85 || s[i + 1] == 0xa0) {
        2
    } else if n - i > 2 && ((b0 == 0xe1 && s[i + 1] == 0x9a && s[i + 2] == 0x80) || (b0 == 0xe2
        && s[i + 1] == 0x80 && ((0x80 <= s[i + 2] && s[i + 2] <= 0x8a) || s[i + 2] == 0xa8 || s[i
        + 2] == 0xa9 || s[i + 2] == 0xaf)) || (b0 == 0xe2 && s[i + 1] == 0x81 && s[i + 2] == 0x9f)
        || (b0 == 0xe3 && s[i + 1] == 0x80 && s[i + 2] == 0x80)) {
        3
    } else {
        0
    }
}

/// Splits the text of a known-words file into its words.
pub fn parse_known_words(text: &Vec<u8>) -> (r: Vec<Vec<u8>>)
    ensures
        r@.map_values(|w: Vec<u8>| w@) == words_of(text@),
{
    let n = text.len();
    let mut r: Vec<Vec<u8>> = Vec::new();
    let mut word: Vec<u8> = Vec::new();
    let mut i: usize = 0;
    while i < n
        invariant
            n == text@.len(),
            i <= n,
            r@.map_values(|w: Vec<u8>| w@) + words_from(text@, i as int, word@) == words_of(
                text@,
            ),
        decreases n - i,
    {
        let ghost before = r@.map_values(|w: Vec<u8>| w@);
        let len = space_at(text, i);
        if len > 0 {
            let ghost done = if word@.len() > 0 { seq![word@] } else { Seq::<Seq<u8>>::empty() };
            if word.len() > 0 {
                let w = word;
                r.push(w);
                word = Vec::new();
            } else {
                word = Vec::new();
            }
            assert(r@.map_values(|w: Vec<u8>| w@) =~= before + done);
            assert(before + (done + words_from(text@, i + len, Seq::empty())) =~= before + done
                + words_from(text@, i + len, Seq::empty()));
            i = i + len;
        } else {
            word.push(text[i]);
            i = i + 1;
        }
    }
    let ghost before = r@.map_values(|w: Vec<u8>| w@);
    if word.len() > 0 {
        r.push(word);
        assert(r@.map_values(|w: Vec<u8>| w@) =~= before + words_from(text@, i as int, word@));
    } else {
        assert(words_from(text@, i as int, word@) =~= Seq::<Seq<u8>>::empty());
        assert(r@.map_values(|w: Vec<u8>| w@) =~= before + words_from(text@, i as int, word@));
    }
    r
}

} // verus!
