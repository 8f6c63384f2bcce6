//! The catalog record and the operations downstream consumers rely on:
//! lookup by id and the output path rule.

use vstd::prelude::*;
use crate::chars::push_char;
use vstd::string::StringExecFns;

verus! {

/// One catalog entry: a downloadable media item described by a table row.
#[derive(Debug, Clone, PartialEq, Eq)]
pub struct Bulletin {
    /// Short identifier from the leading token of the compound name field;
    /// empty when that field did not parse as `id - name`; prefixed with
    /// `"1"` for a captioned variant.
    pub id: String,
    /// Human-readable title, trimmed, with type code and id removed.
    pub name: String,
    /// Resource URL of the row's first anchor; a record without an anchor
    /// is never emitted, one whose anchor lacks `href` carries `""` here.
    pub url: String,
    /// Raw size text of the row's second cell, preserved as displayed.
    pub size: String,
    /// Short alphanumeric token from the start of the first cell; empty
    /// when no such prefix is present.
    pub file_type: String,
}

/// The mathematical content of a [`Bulletin`]: its fields as character
/// sequences.
#[verifier::ext_equal]
pub struct BulletinV {
    pub id: Seq<char>,
    pub name: Seq<char>,
    pub url: Seq<char>,
    pub size: Seq<char>,
    pub file_type: Seq<char>,
}

impl View for Bulletin {
    type V = BulletinV;

    open spec fn view(&self) -> BulletinV {
        BulletinV {
            id: self.id@,
            name: self.name@,
            url: self.url@,
            size: self.size@,
            file_type: self.file_type@,
        }
    }
}

/// The content of a whole catalog, record by record.
pub open spec fn catalog_view(bs: Seq<Bulletin>) -> Seq<BulletinV> {
    bs.map_values(|b: Bulletin| b@)
}

/// The content of an optional record.
pub open spec fn opt_record_view(r: Option<Bulletin>) -> Option<BulletinV> {
    match r {
        Option::None => Option::None,
        Option::Some(b) => Option::Some(b@),
    }
}

/// The index of the first catalog entry whose id equals `id`, by exact
/// string equality; `None` when no entry matches.
pub fn find_by_id(catalog: &Vec<Bulletin>, id: &String) -> (r: Option<usize>)
    ensures
        match r {
            Option::Some(i) => i < catalog@.len() && catalog@[i as int].id@ == id@
                && forall|j: int| 0 <= j < i ==> catalog@[j].id@ != id@,
            Option::None => forall|j: int| 0 <= j < catalog@.len() ==> catalog@[j].id@ != id@,
        },
{
    let mut i: usize = 0;
    while i < catalog.len()
        invariant
            i <= catalog@.len(),
            forall|j: int| 0 <= j < i ==> catalog@[j].id@ != id@,
        decreases catalog@.len() - i,
    {
        if catalog[i].id == *id {
            return Some(i);
        }
        i += 1;
    }
    None
}

/// The path a record's file is written to: `<dir><name>.<file_type>`,
/// exactly; no sanitization of the name is performed.
pub fn output_path(dir: &str, name: &str, file_type: &str) -> (r: String)
    ensures
        r@ == dir@ + name@ + seq!['.'] + file_type@,
{
    let mut r = String::new();
    r.append(dir);
    r.append(name);
    push_char(&mut r, '.');
    r.append(file_type);
    proof {
        assert((((Seq::<char>::empty() + dir@) + name@).push('.')) + file_type@
            =~= dir@ + name@ + seq!['.'] + file_type@);
    }
    r
}

} // verus!
