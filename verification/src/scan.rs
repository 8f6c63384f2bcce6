//! The table scanner: every table row of the document, in document order,
//! through the row extractor. The row harvesting itself is the one outside
//! call; the scan over its result is verified.

use vstd::prelude::*;
use crate::record::{Bulletin, BulletinV, catalog_view};
use crate::row::{spec_row, extract_row};

verus! {

/// The three raw cell values of every `tr` of the document, in document
/// order: the text of its first two `td` cells and the inner markup of its
/// third, with empty strings standing in for missing cells. A function of
/// the document alone, since scraper's parsing is deterministic.
pub uninterp spec fn rows_of(html: Seq<char>) -> Seq<(Seq<char>, Seq<char>, Seq<char>)>;

/// The content of a harvested row list, cell by cell.
pub open spec fn rows_view(rs: Seq<(String, String, String)>) -> Seq<
    (Seq<char>, Seq<char>, Seq<char>),
> {
    rs.map_values(|t: (String, String, String)| (t.0@, t.1@, t.2@))
}

/// Relies on scraper's `Html::parse_document`, `Selector::parse`,
/// `ElementRef::text` and `ElementRef::inner_html`: selects `table tr`
/// elements in document order and, per row, its `td` descendants in
/// document order.
#[verifier::external_body]
fn table_row_cells(html: &str) -> (r: Vec<(String, String, String)>)
    ensures
        rows_view(r@) == rows_of(html@),
{
    let doc = scraper::Html::parse_document(html);
    let tr = scraper::Selector::parse("table tr").unwrap();
    let td = scraper::Selector::parse("td").unwrap();
    doc.select(&tr)
        .map(|row| {
            let mut cells = row.select(&td);
            let name = cells.next().map(|e| e.text().collect()).unwrap_or_default();
            let size = cells.next().map(|e| e.text().collect()).unwrap_or_default();
            let link = cells.next().map(|e| e.inner_html()).unwrap_or_default();
            (name, size, link)
        })
        .collect()
}

/// The ordered catalog of a row list: each row's record in row order,
/// skipped rows contributing nothing.
pub open spec fn spec_scan(rows: Seq<(Seq<char>, Seq<char>, Seq<char>)>) -> Seq<BulletinV>
    decreases rows.len(),
{
    if rows.len() == 0 {
        Seq::empty()
    } else {
        spec_scan(rows.drop_last()) + (match spec_row(
            rows.last().0,
            rows.last().1,
            rows.last().2,
        ) {
            Option::None => Seq::empty(),
            Option::Some(b) => seq![b],
        })
    }
}

/// The extraction pipeline's entry point: the bulletin records of one HTML
/// document, in row order. The scan never aborts on a malformed row.
pub fn extract(html: &str) -> (r: Vec<Bulletin>)
    ensures
        catalog_view(r@) == spec_scan(rows_of(html@)),
{
    let rows = table_row_cells(html);
    let mut out: Vec<Bulletin> = Vec::new();
    let mut i: usize = 0;
    while i < rows.len()
        invariant
            i <= rows@.len(),
            rows_view(rows@) == rows_of(html@),
            catalog_view(out@) == spec_scan(rows_view(rows@).take(i as int)),
        decreases rows@.len() - i,
    {
        let row = &rows[i];
        let rec = extract_row(row.0.as_str(), row.1.as_str(), row.2.as_str());
        proof {
            let rv = rows_view(rows@);
            assert(rv[i as int] == (rows@[i as int].0@, rows@[i as int].1@, rows@[i as int].2@));
            assert(rv.take(i + 1).drop_last() =~= rv.take(i as int));
            assert(rv.take(i + 1).last() == rv[i as int]);
        }
        let ghost prev = out@;
        match rec {
            Some(b) => {
                let ghost bv = b@;
                out.push(b);
                proof {
                    assert(catalog_view(prev.push(out@[prev.len() as int])) =~= catalog_view(
                        prev,
                    ).push(bv));
                    assert(catalog_view(prev) + seq![bv] =~= catalog_view(prev).push(bv));
                }
            },
            None => {
                proof {
                    assert(catalog_view(prev) + Seq::<BulletinV>::empty() =~= catalog_view(prev));
                }
            },
        }
        i += 1;
    }
    proof {
        assert(rows_view(rows@).take(rows@.len() as int) =~= rows_view(rows@));
    }
    out
}

/// Order preservation: when every row yields a record, the catalog has one
/// record per row, in the same order.
pub proof fn lemma_scan_order(rows: Seq<(Seq<char>, Seq<char>, Seq<char>)>)
    requires
        forall|i: int|
            0 <= i < rows.len() ==> (#[trigger] spec_row(rows[i].0, rows[i].1, rows[i].2))
                is Some,
    ensures
        spec_scan(rows).len() == rows.len(),
        forall|i: int|
            0 <= i < rows.len() ==> #[trigger] spec_row(rows[i].0, rows[i].1, rows[i].2)
                == Option::Some(spec_scan(rows)[i]),
    decreases rows.len(),
{
    if rows.len() > 0 {
        let pre = rows.drop_last();
        assert forall|i: int|
            0 <= i < pre.len() implies (#[trigger] spec_row(pre[i].0, pre[i].1, pre[i].2))
            is Some by {
            assert(pre[i] == rows[i]);
            assert(spec_row(rows[i].0, rows[i].1, rows[i].2) is Some);
        }
        lemma_scan_order(pre);
        let last = rows.last();
        assert(spec_row(rows[rows.len() - 1].0, rows[rows.len() - 1].1, rows[rows.len() - 1].2)
            is Some);
        match spec_row(last.0, last.1, last.2) {
            Option::Some(b) => {
                assert(spec_scan(rows) == spec_scan(pre) + seq![b]);
                assert forall|i: int|
                    0 <= i < rows.len() implies #[trigger] spec_row(
                    rows[i].0,
                    rows[i].1,
                    rows[i].2,
                ) == Option::Some(spec_scan(rows)[i]) by {
                    if i < pre.len() {
                        assert(pre[i] == rows[i]);
                        assert(spec_row(pre[i].0, pre[i].1, pre[i].2) == Option::Some(
                            spec_scan(pre)[i],
                        ));
                        assert(spec_scan(rows)[i] == spec_scan(pre)[i]);
                    } else {
                        assert(spec_scan(rows)[i] == b);
                    }
                }
            },
            Option::None => {
                assert(false);
            },
        }
    }
}

} // verus!
