//! Source outlines, search records, and the flattening of one into the other.

use crate::laws::lemma_ids_distinct;
use crate::text::{decimal, decimal_string, site_name, site_name_of};
use crate::translit::{to_pinyin, transliterate};
use vstd::prelude::*;
use vstd::string::*;

verus! {

broadcast use {vstd::seq::axiom_seq_index_decreases, vstd::std_specs::vec::group_vec_axioms};

/// One entry of a site's outline: a page or one of its sections, with the
/// nested entries under it.
pub struct DocumentItem {
    pub url: String,
    pub title: String,
    pub content: String,
    pub tag: Option<String>,
    pub toc: Vec<DocumentItem>,
}

/// One searchable record, keyed by `id`.
#[derive(Clone, Debug)]
pub struct MeilisearchDocument {
    pub id: String,
    pub url: String,
    pub title: String,
    pub tag: String,
    pub content: String,
    pub pinyin: String,
}

/// The text of a search record's fields.
pub struct RecordView {
    pub id: Seq<char>,
    pub url: Seq<char>,
    pub title: Seq<char>,
    pub tag: Seq<char>,
    pub content: Seq<char>,
    pub pinyin: Seq<char>,
}

impl View for MeilisearchDocument {
    type V = RecordView;

    open spec fn view(&self) -> RecordView {
        RecordView {
            id: self.id@,
            url: self.url@,
            title: self.title@,
            tag: self.tag@,
            content: self.content@,
            pinyin: self.pinyin@,
        }
    }
}

/// The views of a sequence of records.
pub open spec fn views(s: Seq<MeilisearchDocument>) -> Seq<RecordView> {
    s.map_values(|r: MeilisearchDocument| r@)
}

/// The tag a record gets: the source's own, or `"DOM"` when it has none or
/// an empty one.
pub open spec fn tag_of(tag: Option<String>) -> Seq<char> {
    match tag {
        Some(t) => if t@.len() > 0 {
            t@
        } else {
            seq!['D', 'O', 'M']
        },
        None => seq!['D', 'O', 'M'],
    }
}

/// The record of an outline entry numbered `n`, under a parent whose text is
/// `parent_content`, on the site named `site`.
pub open spec fn child_record(
    child: DocumentItem,
    parent_content: Seq<char>,
    site: Seq<char>,
    n: nat,
) -> RecordView {
    RecordView {
        id: decimal(n),
        url: child.url@ + seq![' ', '-', ' '] + site,
        title: child.title@,
        tag: tag_of(child.tag),
        content: child.content@,
        pinyin: transliterate(parent_content),
    }
}

/// The records emitted for the entries `toc[i..]` of a parent whose text is
/// `content`, when the last number handed out is `index`. An entry with an
/// empty title is passed over with all that lies under it; a titled entry
/// takes the next number, the entries under it the numbers after that, and
/// its later siblings the numbers after those.
pub open spec fn emitted(
    content: Seq<char>,
    toc: Seq<DocumentItem>,
    i: int,
    site: Seq<char>,
    index: nat,
) -> Seq<RecordView>
    decreases toc, toc.len() - i,
{
    if i < 0 || i >= toc.len() {
        Seq::empty()
    } else if toc[i].title@.len() == 0 {
        emitted(content, toc, i + 1, site, index)
    } else {
        let sub = emitted(toc[i].content@, toc[i].toc@, 0, site, index + 1);
        seq![child_record(toc[i], content, site, index + 1)] + sub + emitted(
            content,
            toc,
            i + 1,
            site,
            index + 1 + sub.len(),
        )
    }
}

/// The records of a whole document's outline, numbered from 2.
pub open spec fn flattened(doc: DocumentItem) -> Seq<RecordView> {
    emitted(doc.content@, doc.toc@, 0, site_name_of(doc.title@), 1)
}

/// Whether the numbers of a whole document's records fit in a `usize`.
pub open spec fn document_ids_fit(doc: DocumentItem) -> bool {
    1 + flattened(doc).len() <= usize::MAX
}

/// The record that stands for a whole document.
pub open spec fn page_record(doc: DocumentItem) -> RecordView {
    RecordView {
        id: seq!['0'],
        url: doc.url@,
        title: doc.title@,
        tag: tag_of(doc.tag),
        content: doc.content@,
        pinyin: transliterate(doc.content@),
    }
}

impl MeilisearchDocument {
    /// The record's key.
    pub fn get_uid(&self) -> (r: &String)
        ensures
            r@ == self.id@,
    {
        &self.id
    }
}

/// The tag of a record made from an entry with tag `tag`.
fn record_tag(tag: &Option<String>) -> (r: String)
    ensures
        r@ == tag_of(*tag),
        r@.len() > 0,
{
    match tag {
        Some(t) => {
            if !t.as_str().is_empty() {
                return t.clone();
            }
        },
        None => {},
    }
    let r = String::from_str("DOM");
    proof {
        reveal_strlit("DOM");
    }
    assert(r@ =~= seq!['D', 'O', 'M']);
    r
}

/// The record that stands for the whole of `doc`.
pub fn whole_page_record(doc: &DocumentItem) -> (r: MeilisearchDocument)
    ensures
        r@ == page_record(*doc),
{
    let id = String::from_str("0");
    proof {
        reveal_strlit("0");
    }
    assert(id@ =~= seq!['0']);
    MeilisearchDocument {
        id,
        pinyin: to_pinyin(&doc.content),
        url: doc.url.clone(),
        title: doc.title.clone(),
        content: doc.content.clone(),
        tag: record_tag(&doc.tag),
    }
}

/// Appends to `context` the records of the outline under `data`, numbering
/// them from `level + 1` on, and returns the last number handed out;
/// `site_data` is the document that names the site.
pub fn loop_insert(
    data: &DocumentItem,
    context: &mut Vec<MeilisearchDocument>,
    site_data: &DocumentItem,
    level: usize,
) -> (next: usize)
    requires
        level + emitted(data.content@, data.toc@, 0, site_name_of(site_data.title@), level as nat).len()
            <= usize::MAX,
    ensures
        views(final(context)@) == views(old(context)@) + emitted(
            data.content@,
            data.toc@,
            0,
            site_name_of(site_data.title@),
            level as nat,
        ),
        next == level + emitted(
            data.content@,
            data.toc@,
            0,
            site_name_of(site_data.title@),
            level as nat,
        ).len(),
    decreases data,
{
    let site = site_name(site_data.title.as_str());
    let ghost site_v = site_name_of(site_data.title@);
    let ghost all = emitted(data.content@, data.toc@, 0, site_v, level as nat);
    if data.toc.len() == 0 {
        assert(views(context@) + all =~= views(context@));
        return level;
    }
    let mut index: usize = level;
    let mut i: usize = 0;
    while i < data.toc.len()
        invariant
            i <= data.toc@.len(),
            site@ == site_v,
            site_v == site_name_of(site_data.title@),
            all == emitted(data.content@, data.toc@, 0, site_v, level as nat),
            level + all.len() <= usize::MAX,
            index + emitted(data.content@, data.toc@, i as int, site_v, index as nat).len() == level
                + all.len(),
            views(old(context)@) + all == views(context@) + emitted(
                data.content@,
                data.toc@,
                i as int,
                site_v,
                index as nat,
            ),
        decreases data.toc@.len() - i,
    {
        let item_data = &data.toc[i];
        if !item_data.title.as_str().is_empty() {
            let ghost before = views(context@);
            let ghost sub = emitted(item_data.content@, item_data.toc@, 0, site_v, (index + 1) as nat);
            let ghost rest = emitted(
                data.content@,
                data.toc@,
                i + 1,
                site_v,
                (index + 1 + sub.len()) as nat,
            );
            index = index + 1;
            let mut url = item_data.url.clone();
            url.append(" - ");
            url.append(site.as_str());
            proof {
                reveal_strlit(" - ");
            }
            assert(url@ =~= item_data.url@ + seq![' ', '-', ' '] + site_v);
            let rec = MeilisearchDocument {
                id: decimal_string(index),
                pinyin: to_pinyin(&data.content),
                url,
                title: item_data.title.clone(),
                content: item_data.content.clone(),
                tag: record_tag(&item_data.tag),
            };
            assert(rec@ == child_record(*item_data, data.content@, site_v, index as nat));
            let ghost rv = rec@;
            context.push(rec);
            assert(views(context@) =~= before.push(rv));
            let ghost mid = views(context@);
            index = loop_insert(item_data, context, site_data, index);
            assert(views(context@) == mid + sub);
            assert(views(context@) + rest =~= before + (seq![rv] + sub + rest));
        }
        i = i + 1;
    }
    assert(emitted(data.content@, data.toc@, i as int, site_v, index as nat) =~= Seq::<RecordView>::empty());
    assert(views(context@) + Seq::<RecordView>::empty() =~= views(context@));
    index
}

/// The records of the outline of `doc`, numbered from 2, without the record
/// of the whole page. No two of them share an id, and none has the whole
/// page's id `"0"`.
pub fn flatten(doc: &DocumentItem) -> (r: Vec<MeilisearchDocument>)
    requires
        document_ids_fit(*doc),
    ensures
        views(r@) == flattened(*doc),
        forall|a: int, b: int| 0 <= a < b < r@.len() ==> #[trigger] r@[a].id@ != #[trigger] r@[b].id@,
        forall|a: int| 0 <= a < r@.len() ==> #[trigger] r@[a].id@ != seq!['0'],
{
    let mut records: Vec<MeilisearchDocument> = Vec::new();
    loop_insert(doc, &mut records, doc, 1);
    assert(views(Seq::<MeilisearchDocument>::empty()) + flattened(*doc) =~= flattened(*doc));
    proof {
        lemma_ids_distinct(*doc);
        assert forall|a: int| 0 <= a < records@.len() implies #[trigger] records@[a].id@
            == flattened(*doc)[a].id by {
            assert(views(records@)[a] == records@[a]@);
        }
    }
    records
}

/// The last number handed out for `toc[i..]` when the one before is `index`,
/// or `None` when it would not fit in a `usize`.
fn last_number(
    content: Ghost<Seq<char>>,
    site: Ghost<Seq<char>>,
    toc: &Vec<DocumentItem>,
    i: usize,
    index: usize,
) -> (r: Option<usize>)
    requires
        i <= toc@.len(),
    ensures
        ({
            let n = index + emitted(content@, toc@, i as int, site@, index as nat).len();
            if n <= usize::MAX {
                r == Some(n as usize)
            } else {
                r is None
            }
        }),
    decreases toc@, toc@.len() - i,
{
    if i >= toc.len() {
        return Some(index);
    }
    let entry = &toc[i];
    if entry.title.as_str().is_empty() {
        return last_number(content, site, toc, i + 1, index);
    }
    if index == usize::MAX {
        return None;
    }
    let after_sub = last_number(Ghost(entry.content@), site, &entry.toc, 0, index + 1);
    match after_sub {
        None => None,
        Some(m) => last_number(content, site, toc, i + 1, m),
    }
}

/// Whether every record number of `doc` fits in a `usize`, which `flatten`
/// asks of its input.
pub fn document_ids_fit_check(doc: &DocumentItem) -> (r: bool)
    ensures
        r == document_ids_fit(*doc),
{
    last_number(Ghost(doc.content@), Ghost(site_name_of(doc.title@)), &doc.toc, 0, 1).is_some()
}

} // verus!
