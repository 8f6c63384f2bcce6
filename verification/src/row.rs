//! The row extractor: at most one record from one table row's three cell
//! values. The anchor lookup inside the link cell's markup is the one
//! outside call; everything around it is verified against the lookup's
//! outcome.

use vstd::prelude::*;
use crate::record::{Bulletin, BulletinV, opt_record_view};
use crate::text::{
    spec_clean, spec_split_type_prefix, spec_split_id_name, spec_apply_caption_tag,
    clean, split_type_prefix, split_id_name, apply_caption_tag,
};

verus! {

/// The content of an anchor lookup's outcome: no anchor, an anchor without
/// `href`, or the `href` text.
pub open spec fn opt2_view(a: Option<Option<String>>) -> Option<Option<Seq<char>>> {
    match a {
        Option::None => Option::None,
        Option::Some(Option::None) => Option::Some(Option::None),
        Option::Some(Option::Some(s)) => Option::Some(Option::Some(s@)),
    }
}

/// What the first anchor of a link cell's markup resolves to: `None` when
/// the markup holds no anchor, `Some(None)` for an anchor without `href`,
/// else the `href` text. A function of the markup alone, since scraper's
/// fragment parsing is deterministic.
pub uninterp spec fn anchor_href_of(fragment: Seq<char>) -> Option<Option<Seq<char>>>;

/// Relies on scraper's `Html::parse_document`, `Selector::parse` and
/// `ElementRef::attr`: parses the markup, takes its first `a` element and
/// reads that element's `href` attribute.
#[verifier::external_body]
fn first_anchor_href(fragment: &str) -> (r: Option<Option<String>>)
    ensures
        opt2_view(r) == anchor_href_of(fragment@),
{
    let doc = scraper::Html::parse_document(fragment);
    let sel = scraper::Selector::parse("a").unwrap();
    match doc.select(&sel).next() {
        None => None,
        Some(a) => Some(a.value().attr("href").map(|h| h.to_string())),
    }
}

/// What one row yields, given the anchor lookup's outcome on its third
/// cell: no anchor skips the row; otherwise the record is assembled from
/// the normalized first cell, the cleaned second cell, and an `href` that
/// defaults to empty when the anchor carries none.
pub open spec fn spec_assemble(
    c0: Seq<char>,
    c1: Seq<char>,
    anchor: Option<Option<Seq<char>>>,
) -> Option<BulletinV> {
    match anchor {
        Option::None => Option::None,
        Option::Some(h) => {
            let tp = spec_split_type_prefix(spec_clean(c0));
            let sn = spec_split_id_name(tp.1);
            Option::Some(
                BulletinV {
                    id: spec_apply_caption_tag(sn.0, sn.1),
                    name: sn.1,
                    url: match h {
                        Option::None => Seq::empty(),
                        Option::Some(u) => u,
                    },
                    size: spec_clean(c1),
                    file_type: tp.0,
                },
            )
        },
    }
}

/// What one row yields from its three raw cell values.
pub open spec fn spec_row(c0: Seq<char>, c1: Seq<char>, c2: Seq<char>) -> Option<BulletinV> {
    spec_assemble(c0, c1, anchor_href_of(c2))
}

/// Assembles the record of one row from its first two cells and the
/// outcome of the anchor lookup on its third. Total over malformed titles:
/// a failed `id - name` split degrades to empty id and name.
pub fn assemble_record(c0: &str, c1: &str, anchor: Option<Option<String>>) -> (r: Option<
    Bulletin,
>)
    ensures
        opt_record_view(r) == spec_assemble(c0@, c1@, opt2_view(anchor)),
{
    match anchor {
        None => None,
        Some(h) => {
            let cleaned = clean(c0);
            let (file_type, rest) = split_type_prefix(cleaned.as_str());
            let (id0, name, _ok) = split_id_name(rest.as_str());
            let id = apply_caption_tag(id0.as_str(), name.as_str());
            let url = match h {
                None => String::new(),
                Some(u) => u,
            };
            let size = clean(c1);
            Some(Bulletin { id, name, url, size, file_type })
        },
    }
}

/// One full row: looks the anchor up in the third cell's markup, then
/// assembles; rows without an anchor yield no record.
pub fn extract_row(c0: &str, c1: &str, c2: &str) -> (r: Option<Bulletin>)
    ensures
        opt_record_view(r) == spec_row(c0@, c1@, c2@),
{
    let anchor = first_anchor_href(c2);
    assemble_record(c0, c1, anchor)
}

/// A row whose link cell holds no anchor is skipped outright; a row with
/// an anchor always yields a record, malformed title or not.
pub proof fn lemma_row_skip_and_total(c0: Seq<char>, c1: Seq<char>, c2: Seq<char>)
    ensures
        anchor_href_of(c2) is None ==> spec_row(c0, c1, c2) is None,
        anchor_href_of(c2) is Some ==> spec_row(c0, c1, c2) is Some,
{
}

} // verus!
