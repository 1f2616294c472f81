//! Packing text into words and expanding words into text.

use vstd::prelude::*;
use vstd::arithmetic::div_mod::lemma_fundamental_div_mod_converse;

use crate::charmap::{
    char_to_value, char_value, lemma_char_value_range, normalized, value_char, value_to_char, RADIX,
};

verus! {

/// The text left-padded with spaces to the nearest multiple of three
/// characters; a text whose length is already a multiple of three is kept.
pub open spec fn padded(s: Seq<char>) -> Seq<char> {
    if s.len() % 3 == 0 {
        s
    } else {
        Seq::new((3 - s.len() % 3) as nat, |_i: int| ' ') + s
    }
}

/// The padded text is the smallest multiple of three characters long that
/// is not shorter than the text: the text itself, after one or two spaces
/// where its length is not a multiple of three.
pub proof fn lemma_padded(s: Seq<char>)
    ensures
        padded(s).len() % 3 == 0,
        s.len() <= padded(s).len() < s.len() + 3,
        s.len() % 3 == 0 ==> padded(s) == s,
        s.len() % 3 != 0 ==> padded(s).len() > s.len(),
        padded(s).subrange(padded(s).len() - s.len(), padded(s).len() as int) == s,
        forall|j: int| 0 <= j < padded(s).len() - s.len() ==> padded(s)[j] == ' ',
{
    let p = padded(s);
    let k = p.len() - s.len();
    assert(p.subrange(k, p.len() as int) =~= s);
}

/// The word for three characters, most significant first.
pub open spec fn word_of(a: char, b: char, c: char) -> int {
    char_value(a) * 1600 + char_value(b) * 40 + char_value(c)
}

/// The words for a text: one for each group of three characters of the
/// padded text, in order.
pub open spec fn pack(s: Seq<char>) -> Seq<u16> {
    let p = padded(s);
    Seq::new(p.len() / 3, |i: int| word_of(p[3 * i], p[3 * i + 1], p[3 * i + 2]) as u16)
}

/// The base-40 digit of a word at position `k` of three, most significant
/// first. The leading digit is taken mod 40 as well, so a word past the
/// largest packed value still yields three digits.
pub open spec fn digit(w: u16, k: int) -> int {
    if k == 0 {
        (w as int / 1600) % 40
    } else if k == 1 {
        (w as int / 40) % 40
    } else {
        w as int % 40
    }
}

/// The text for a sequence of words: three characters for each word.
pub open spec fn unpack(ws: Seq<u16>) -> Seq<char> {
    Seq::new(3 * ws.len(), |i: int| value_char(digit(ws[i / 3], i % 3)))
}

/// Packs text into 16-bit words, three characters to a word.
///
/// The text is first left-padded with spaces to a multiple of three
/// characters; letters are folded to upper case and characters outside the
/// table count as spaces.
pub fn squoze(input: &str) -> (r: Vec<u16>)
    ensures
        r@ == pack(input@),
        input@.len() == 0 ==> r@.len() == 0,
        input@.len() % 3 == 0 ==> r@.len() == input@.len() / 3,
{
    let n = input.unicode_len();
    let pad: usize = if n % 3 == 0 { 0 } else { 3 - n % 3 };
    let ghost p = padded(input@);
    proof {
        lemma_padded(input@);
    }
    let mut values: Vec<u8> = Vec::new();
    for _k in 0..pad
        invariant
            pad == p.len() - input@.len(),
            forall|j: int| 0 <= j < pad ==> p[j] == ' ',
            values@.len() == _k,
            forall|j: int| 0 <= j < values@.len() ==> values@[j] as int == char_value(p[j]),
            forall|j: int| 0 <= j < values@.len() ==> values@[j] < RADIX,
    {
        values.push(0);
    }
    for c in it: input.chars()
        invariant
            n == input@.len(),
            it.seq() == input@,
            pad == p.len() - n,
            p.subrange(pad as int, p.len() as int) == input@,
            values@.len() == pad + it.index(),
            forall|j: int| 0 <= j < values@.len() ==> values@[j] as int == char_value(p[j]),
            forall|j: int| 0 <= j < values@.len() ==> values@[j] < RADIX,
    {
        assert(p[pad + it.index()] == c) by {
            assert(p.subrange(pad as int, p.len() as int)[it.index() as int] == c);
        }
        values.push(char_to_value(c));
    }
    let total = values.len();
    let groups = total / 3;
    let mut words: Vec<u16> = Vec::new();
    for g in 0..groups
        invariant
            p == padded(input@),
            3 * groups == p.len(),
            total == values@.len(),
            values@.len() == p.len(),
            p.len() % 3 == 0,
            forall|j: int| 0 <= j < values@.len() ==> values@[j] as int == char_value(p[j]),
            forall|j: int| 0 <= j < values@.len() ==> values@[j] < RADIX,
            words@.len() == g,
            pack(input@).len() == groups,
            forall|j: int| 0 <= j < g ==> words@[j] == pack(input@)[j],
    {
        let d0 = values[3 * g] as u16;
        let d1 = values[3 * g + 1] as u16;
        let d2 = values[3 * g + 2] as u16;
        let w = d0 * 1600 + d1 * 40 + d2;
        assert(w as int == word_of(p[3 * g], p[3 * g + 1], p[3 * g + 2]));
        assert(pack(input@)[g as int] == w);
        words.push(w);
    }
    assert(words@ =~= pack(input@));
    words
}

/// Three values in `0..40` are the three digits of the word they make.
pub proof fn lemma_word_digits(a: int, b: int, c: int)
    requires
        0 <= a < 40,
        0 <= b < 40,
        0 <= c < 40,
    ensures
        0 <= a * 1600 + b * 40 + c < 64000,
        digit((a * 1600 + b * 40 + c) as u16, 0) == a,
        digit((a * 1600 + b * 40 + c) as u16, 1) == b,
        digit((a * 1600 + b * 40 + c) as u16, 2) == c,
{
    let w = a * 1600 + b * 40 + c;
    lemma_fundamental_div_mod_converse(w, 40, a * 40 + b, c);
    lemma_fundamental_div_mod_converse(a * 40 + b, 40, a, b);
    lemma_fundamental_div_mod_converse(w, 1600, a, b * 40 + c);
    lemma_fundamental_div_mod_converse(a, 40, 0, a);
}

/// Packing a text gives the same words as packing it after it has been
/// left-padded with spaces to a multiple of three characters.
pub proof fn lemma_pack_pads_left(s: Seq<char>)
    ensures
        pack(s) == pack(padded(s)),
{
    lemma_padded(s);
    lemma_padded(padded(s));
}

/// Packing and then unpacking a text gives the text left-padded with spaces
/// to a multiple of three characters, with each character normalized: letters
/// upper-cased and characters outside the table turned into spaces.
pub proof fn lemma_round_trip(s: Seq<char>)
    ensures
        unpack(pack(s)) == padded(s).map_values(|c: char| normalized(c)),
{
    let p = padded(s);
    let ws = pack(s);
    lemma_padded(s);
    assert forall|i: int| 0 <= i < p.len() implies #[trigger] unpack(ws)[i] == normalized(p[i]) by {
        let g = i / 3;
        let k = i % 3;
        assert(3 * g + k == i);
        lemma_char_value_range(p[3 * g]);
        lemma_char_value_range(p[3 * g + 1]);
        lemma_char_value_range(p[3 * g + 2]);
        lemma_word_digits(char_value(p[3 * g]), char_value(p[3 * g + 1]), char_value(p[3 * g + 2]));
    }
    assert(unpack(ws) =~= p.map_values(|c: char| normalized(c)));
}

/// The codec is lossy: some text does not come back from a round trip as it
/// was, here because its letters come back upper case.
pub proof fn lemma_lossy()
    ensures
        exists|s: Seq<char>| unpack(pack(s)) != s,
{
    let s = seq!['a', 'b', 'c'];
    lemma_round_trip(s);
    assert(unpack(pack(s)) != s);
}

/// Relies on `String::push`: the character is appended at the end.
#[verifier::external_body]
fn push_char(s: &mut String, c: char)
    ensures
        final(s)@ == old(s)@.push(c),
{
    s.push(c);
}

/// Expands 16-bit words into text, three characters for each word.
///
/// Each word is read as three base-40 digits, most significant first; a
/// digit of 0 reads as a space, and letters come out upper case.
pub fn desquoze(input: Vec<u16>) -> (r: String)
    ensures
        r@ == unpack(input@),
        r@.len() == 3 * input@.len(),
        input@.len() == 0 ==> r@.len() == 0,
{
    let mut text = String::new();
    for i in 0..input.len()
        invariant
            text@.len() == 3 * i,
            forall|j: int| 0 <= j < 3 * i ==> text@[j] == unpack(input@)[j],
    {
        let w = input[i];
        let radix = RADIX as u16;
        let d0 = (w / 1600 % radix) as u8;
        let d1 = (w / radix % radix) as u8;
        let d2 = (w % radix) as u8;
        push_char(&mut text, value_to_char(d0));
        push_char(&mut text, value_to_char(d1));
        push_char(&mut text, value_to_char(d2));
    }
    assert(text@ =~= unpack(input@));
    text
}

} // verus!
