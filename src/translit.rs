//! Phonetic transliteration of text, one character at a time.

use crate::text::chars_of;
use pinyin::ToPinyin;
use vstd::prelude::*;
use vstd::string::*;

verus! {

/// The plain (toneless) romanized syllable of `c`, when it has one.
pub uninterp spec fn plain_syllable(c: char) -> Option<Seq<char>>;

/// Relies on pinyin's `ToPinyin for char` and `Pinyin::plain`: the toneless
/// syllable of a logograph, or `None` for a character without a reading.
#[verifier::external_body]
fn syllable_of(c: char) -> (r: Option<&'static str>)
    ensures
        r matches Some(p) ==> plain_syllable(c) == Some(p@),
        r is None ==> plain_syllable(c) is None,
{
    c.to_pinyin().map(|p| p.plain())
}

/// The syllables found in `s`, in order, each preceded by one space;
/// characters without a syllable contribute nothing.
pub open spec fn syllables(s: Seq<char>) -> Seq<char>
    decreases s.len(),
{
    if s.len() == 0 {
        Seq::empty()
    } else {
        match plain_syllable(s.last()) {
            Some(p) => syllables(s.drop_last()) + seq![' '] + p,
            None => syllables(s.drop_last()),
        }
    }
}

/// The transliteration of `s`: its syllables, or `s` itself when no
/// character of it has one.
pub open spec fn transliterate(s: Seq<char>) -> Seq<char> {
    if syllables(s).len() > 0 {
        syllables(s)
    } else {
        s
    }
}

/// Whether no character of `s` has a syllable.
pub open spec fn untransliterable(s: Seq<char>) -> bool {
    forall|i: int| 0 <= i < s.len() ==> #[trigger] plain_syllable(s[i]) is None
}

/// Transliterates `s`, falling back to `s` itself when none of its characters
/// has a syllable.
pub fn to_pinyin(s: &String) -> (r: String)
    ensures
        r@ == transliterate(s@),
{
    let v = chars_of(s.as_str());
    let mut out = String::new();
    let mut i: usize = 0;
    while i < v.len()
        invariant
            i <= v@.len(),
            v@ == s@,
            out@ == syllables(v@.take(i as int)),
        decreases v@.len() - i,
    {
        assert(v@.take(i + 1).drop_last() =~= v@.take(i as int));
        match syllable_of(v[i]) {
            Some(p) => {
                out.append(" ");
                out.append(p);
                proof {
                    reveal_strlit(" ");
                    assert(syllables(v@.take(i + 1)) =~= syllables(v@.take(i as int)) + seq![' '] + p@);
                }
            },
            None => {},
        }
        i = i + 1;
    }
    assert(v@.take(v@.len() as int) =~= v@);
    if !out.as_str().is_empty() {
        out
    } else {
        s.clone()
    }
}

} // verus!
