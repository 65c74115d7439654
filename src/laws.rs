//! Properties that hold of every outline and every text.

use crate::records::{
    child_record, emitted, flattened, page_record, DocumentItem, RecordView,
};
use crate::text::{decimal, digit_char, site_name_of};
use crate::translit::{syllables, transliterate, untransliterable};
use vstd::prelude::*;

verus! {

broadcast use {vstd::seq::axiom_seq_index_decreases, vstd::std_specs::vec::group_vec_axioms};

/// A document without an outline has no records of its own, yet its
/// whole-page record is still the one built from its fields.
pub proof fn lemma_empty_outline(doc: DocumentItem)
    requires
        doc.toc@.len() == 0,
    ensures
        flattened(doc) == Seq::<RecordView>::empty(),
        page_record(doc).id == seq!['0'],
        page_record(doc).title == doc.title@,
{
}

/// A record's tag is never empty: an entry without a tag, or with an empty
/// one, gets `"DOM"`, and one with a tag keeps it.
pub proof fn lemma_tags_nonempty(
    content: Seq<char>,
    toc: Seq<DocumentItem>,
    i: int,
    site: Seq<char>,
    index: nat,
)
    requires
        0 <= i,
    ensures
        forall|k: int|
            0 <= k < emitted(content, toc, i, site, index).len() ==> #[trigger] emitted(
                content,
                toc,
                i,
                site,
                index,
            )[k].tag.len() > 0,
    decreases toc, toc.len() - i,
{
    if i < toc.len() {
        let e = emitted(content, toc, i, site, index);
        if toc[i].title@.len() > 0 {
            let sub = emitted(toc[i].content@, toc[i].toc@, 0, site, index + 1);
            let rest = emitted(content, toc, i + 1, site, index + 1 + sub.len());
            lemma_tags_nonempty(toc[i].content@, toc[i].toc@, 0, site, index + 1);
            lemma_tags_nonempty(content, toc, i + 1, site, index + 1 + sub.len());
            assert(e == seq![child_record(toc[i], content, site, index + 1)] + sub + rest);
            assert forall|k: int| 0 <= k < e.len() implies #[trigger] e[k].tag.len() > 0 by {
                if k == 0 {
                } else if k < 1 + sub.len() {
                    assert(e[k] == sub[k - 1]);
                } else {
                    assert(e[k] == rest[k - 1 - sub.len()]);
                }
            }
        } else {
            lemma_tags_nonempty(content, toc, i + 1, site, index);
            assert(e == emitted(content, toc, i + 1, site, index));
            assert forall|k: int| 0 <= k < e.len() implies #[trigger] e[k].tag.len() > 0 by {
                assert(e[k] == emitted(content, toc, i + 1, site, index)[k]);
            }
        }
    }
}

/// Every record of a document, the whole-page one included, has a non-empty
/// tag.
pub proof fn lemma_document_tags_nonempty(doc: DocumentItem)
    ensures
        page_record(doc).tag.len() > 0,
        forall|k: int| 0 <= k < flattened(doc).len() ==> #[trigger] flattened(doc)[k].tag.len() > 0,
{
    lemma_tags_nonempty(doc.content@, doc.toc@, 0, site_name_of(doc.title@), 1);
}

/// A text none of whose characters has a syllable yields no syllables.
pub proof fn lemma_no_syllables(s: Seq<char>)
    requires
        untransliterable(s),
    ensures
        syllables(s) == Seq::<char>::empty(),
    decreases s.len(),
{
    if s.len() > 0 {
        assert(plain_syllable_none(s, s.len() - 1));
        lemma_no_syllables(s.drop_last());
    }
}

spec fn plain_syllable_none(s: Seq<char>, i: int) -> bool {
    crate::translit::plain_syllable(s[i]) is None
}

/// Transliterating a text that has no syllables gives the text back, and so
/// doing it twice gives what doing it once gives.
pub proof fn lemma_transliterate_idempotent(s: Seq<char>)
    requires
        untransliterable(s),
    ensures
        transliterate(s) == s,
        transliterate(transliterate(s)) == transliterate(s),
{
    lemma_no_syllables(s);
}

/// A non-empty text never transliterates to an empty one.
pub proof fn lemma_transliterate_nonempty(s: Seq<char>)
    requires
        s.len() > 0,
    ensures
        transliterate(s).len() > 0,
{
}

/// An entry with an empty title contributes nothing, neither itself nor
/// anything under it: the records are those of the outline without it, and
/// its siblings keep their numbers.
pub proof fn lemma_untitled_excluded(
    content: Seq<char>,
    toc: Seq<DocumentItem>,
    j: int,
    site: Seq<char>,
    index: nat,
)
    requires
        0 <= j < toc.len(),
        toc[j].title@.len() == 0,
    ensures
        emitted(content, toc, 0, site, index) == emitted(content, toc.remove(j), 0, site, index),
{
    lemma_untitled_excluded_from(content, toc, j, 0, site, index);
}

proof fn lemma_untitled_excluded_from(
    content: Seq<char>,
    toc: Seq<DocumentItem>,
    j: int,
    i: int,
    site: Seq<char>,
    index: nat,
)
    requires
        0 <= i <= j < toc.len(),
        toc[j].title@.len() == 0,
    ensures
        emitted(content, toc, i, site, index) == emitted(content, toc.remove(j), i, site, index),
    decreases j - i,
{
    let short = toc.remove(j);
    if i == j {
        lemma_shifted(content, toc, j, j + 1, site, index);
    } else {
        assert(short[i] == toc[i]);
        let sub = emitted(toc[i].content@, toc[i].toc@, 0, site, index + 1);
        lemma_untitled_excluded_from(content, toc, j, i + 1, site, index);
        lemma_untitled_excluded_from(content, toc, j, i + 1, site, index + 1 + sub.len());
    }
}

/// Past the removed entry, the two outlines emit alike.
proof fn lemma_shifted(
    content: Seq<char>,
    toc: Seq<DocumentItem>,
    j: int,
    i: int,
    site: Seq<char>,
    index: nat,
)
    requires
        0 <= j < i <= toc.len(),
    ensures
        emitted(content, toc, i, site, index) == emitted(content, toc.remove(j), i - 1, site, index),
    decreases toc.len() - i,
{
    let short = toc.remove(j);
    if i < toc.len() {
        assert(short[i - 1] == toc[i]);
        let sub = emitted(toc[i].content@, toc[i].toc@, 0, site, index + 1);
        lemma_shifted(content, toc, j, i + 1, site, index);
        lemma_shifted(content, toc, j, i + 1, site, index + 1 + sub.len());
    }
}

/// A decimal form is never empty.
pub proof fn lemma_decimal_nonempty(n: nat)
    ensures
        decimal(n).len() >= 1,
        n >= 10 ==> decimal(n).len() >= 2,
    decreases n,
{
    if n >= 10 {
        lemma_decimal_nonempty(n / 10);
    }
}

/// Distinct numbers have distinct decimal forms.
pub proof fn lemma_decimal_injective(a: nat, b: nat)
    requires
        decimal(a) == decimal(b),
    ensures
        a == b,
    decreases a,
{
    lemma_decimal_nonempty(a);
    lemma_decimal_nonempty(b);
    if a >= 10 && b >= 10 {
        let da = decimal(a / 10);
        let db = decimal(b / 10);
        assert(da == decimal(a).drop_last());
        assert(db == decimal(b).drop_last());
        lemma_decimal_injective(a / 10, b / 10);
        assert(decimal(a).last() == digit_char(a % 10));
        assert(decimal(b).last() == digit_char(b % 10));
        assert(a % 10 == b % 10);
        assert(a == (a / 10) * 10 + a % 10);
        assert(b == (b / 10) * 10 + b % 10);
    } else if a < 10 && b < 10 {
        assert(decimal(a)[0] == digit_char(a));
        assert(decimal(b)[0] == digit_char(b));
    } else {
        assert(decimal(a).len() != decimal(b).len());
    }
}

/// The records of `toc[i..]` are numbered one after another from `index + 1`,
/// in the order they come.
pub proof fn lemma_ids_numbered(
    content: Seq<char>,
    toc: Seq<DocumentItem>,
    i: int,
    site: Seq<char>,
    index: nat,
)
    requires
        0 <= i,
    ensures
        forall|k: int|
            0 <= k < emitted(content, toc, i, site, index).len() ==> #[trigger] emitted(
                content,
                toc,
                i,
                site,
                index,
            )[k].id == decimal((index + 1 + k) as nat),
    decreases toc, toc.len() - i,
{
    if i < toc.len() {
        let e = emitted(content, toc, i, site, index);
        if toc[i].title@.len() > 0 {
            let sub = emitted(toc[i].content@, toc[i].toc@, 0, site, index + 1);
            let rest = emitted(content, toc, i + 1, site, index + 1 + sub.len());
            lemma_ids_numbered(toc[i].content@, toc[i].toc@, 0, site, index + 1);
            lemma_ids_numbered(content, toc, i + 1, site, index + 1 + sub.len());
            assert(e == seq![child_record(toc[i], content, site, index + 1)] + sub + rest);
            assert forall|k: int| 0 <= k < e.len() implies #[trigger] e[k].id == decimal(
                (index + 1 + k) as nat,
            ) by {
                if k == 0 {
                } else if k < 1 + sub.len() {
                    assert(e[k] == sub[k - 1]);
                } else {
                    assert(e[k] == rest[k - 1 - sub.len()]);
                }
            }
        } else {
            lemma_ids_numbered(content, toc, i + 1, site, index);
            assert(e == emitted(content, toc, i + 1, site, index));
            assert forall|k: int| 0 <= k < e.len() implies #[trigger] e[k].id == decimal(
                (index + 1 + k) as nat,
            ) by {
                assert(e[k] == emitted(content, toc, i + 1, site, index)[k]);
            }
        }
    }
}

/// No two records of one document share an id, and none has the id `"0"`
/// of the whole-page record.
pub proof fn lemma_ids_distinct(doc: DocumentItem)
    ensures
        forall|a: int, b: int|
            0 <= a < b < flattened(doc).len() ==> #[trigger] flattened(doc)[a].id
                != #[trigger] flattened(doc)[b].id,
        forall|a: int| 0 <= a < flattened(doc).len() ==> #[trigger] flattened(doc)[a].id != seq!['0'],
{
    let e = flattened(doc);
    lemma_ids_numbered(doc.content@, doc.toc@, 0, site_name_of(doc.title@), 1);
    assert forall|a: int, b: int| 0 <= a < b < e.len() implies #[trigger] e[a].id != #[trigger] e[b].id by {
        if e[a].id == e[b].id {
            lemma_decimal_injective((2 + a) as nat, (2 + b) as nat);
        }
    }
    assert forall|a: int| 0 <= a < e.len() implies #[trigger] e[a].id != seq!['0'] by {
        if e[a].id == seq!['0'] {
            assert(decimal(0) =~= seq!['0']);
            lemma_decimal_injective((2 + a) as nat, 0);
        }
    }
}

/// The entries of `toc[i..]` and below that a record is made for, in the
/// order the records come: each titled entry, then those under it; an entry
/// with an empty title is left out with all that lies under it.
pub open spec fn kept(toc: Seq<DocumentItem>, i: int) -> Seq<DocumentItem>
    decreases toc, toc.len() - i,
{
    if i < 0 || i >= toc.len() {
        Seq::empty()
    } else if toc[i].title@.len() == 0 {
        kept(toc, i + 1)
    } else {
        seq![toc[i]] + kept(toc[i].toc@, 0) + kept(toc, i + 1)
    }
}

/// The records of `toc[i..]` match the kept entries one to one, in order:
/// each record has its entry's title and text, and its url on the site.
pub proof fn lemma_records_match_kept(
    content: Seq<char>,
    toc: Seq<DocumentItem>,
    i: int,
    site: Seq<char>,
    index: nat,
)
    requires
        0 <= i,
    ensures
        emitted(content, toc, i, site, index).len() == kept(toc, i).len(),
        forall|k: int|
            0 <= k < kept(toc, i).len() ==> {
                let r = #[trigger] emitted(content, toc, i, site, index)[k];
                &&& r.title == kept(toc, i)[k].title@
                &&& r.content == kept(toc, i)[k].content@
                &&& r.url == kept(toc, i)[k].url@ + seq![' ', '-', ' '] + site
                &&& r.title.len() > 0
            },
    decreases toc, toc.len() - i,
{
    if i < toc.len() {
        let e = emitted(content, toc, i, site, index);
        let ks = kept(toc, i);
        if toc[i].title@.len() > 0 {
            let sub = emitted(toc[i].content@, toc[i].toc@, 0, site, index + 1);
            let rest = emitted(content, toc, i + 1, site, index + 1 + sub.len());
            let ksub = kept(toc[i].toc@, 0);
            let krest = kept(toc, i + 1);
            lemma_records_match_kept(toc[i].content@, toc[i].toc@, 0, site, index + 1);
            lemma_records_match_kept(content, toc, i + 1, site, index + 1 + sub.len());
            assert(e == seq![child_record(toc[i], content, site, index + 1)] + sub + rest);
            assert(ks == seq![toc[i]] + ksub + krest);
            assert forall|k: int| 0 <= k < ks.len() implies {
                let r = #[trigger] e[k];
                &&& r.title == ks[k].title@
                &&& r.content == ks[k].content@
                &&& r.url == ks[k].url@ + seq![' ', '-', ' '] + site
                &&& r.title.len() > 0
            } by {
                if k == 0 {
                } else if k < 1 + sub.len() {
                    assert(e[k] == sub[k - 1]);
                    assert(ks[k] == ksub[k - 1]);
                } else {
                    assert(e[k] == rest[k - 1 - sub.len()]);
                    assert(ks[k] == krest[k - 1 - ksub.len()]);
                }
            }
        } else {
            lemma_records_match_kept(content, toc, i + 1, site, index);
            assert(e == emitted(content, toc, i + 1, site, index));
            assert(ks == kept(toc, i + 1));
        }
    }
}

} // verus!
