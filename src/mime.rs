//! A detected MIME type: a supertype and a subtype, kept as detected.
use vstd::prelude::*;

use crate::error::{Error, ErrorView};
use crate::text::{count_before, find_char, chars_of, trim, trim_text};

verus! {

broadcast use vstd::string::group_string_axioms;

/// A MIME type as the detector reported it, such as `text/plain`.
#[derive(Debug, Clone, PartialEq, Eq)]
pub struct MimeType {
    supertype: String,
    subtype: String,
}

/// The mathematical value of a [`MimeType`].
pub struct MimeView {
    pub supertype: Seq<char>,
    pub subtype: Seq<char>,
}

impl View for MimeType {
    type V = MimeView;

    closed spec fn view(&self) -> MimeView {
        MimeView { supertype: self.supertype@, subtype: self.subtype@ }
    }
}

/// What the detector's output `out` stands for: the trimmed text split at
/// its first `/`, or nothing where it holds no `/`.
pub open spec fn mime_of_output(out: Seq<char>) -> Option<MimeView> {
    let t = trim(out);
    let k = count_before(t, '/');
    if k < t.len() {
        Some(MimeView { supertype: t.take(k as int), subtype: t.skip(k + 1 as int) })
    } else {
        None
    }
}

impl MimeType {
    /// The MIME type with these two parts, kept verbatim.
    pub fn new(supertype: &str, subtype: &str) -> (r: MimeType)
        ensures
            r@ == (MimeView { supertype: supertype@, subtype: subtype@ }),
    {
        MimeType { supertype: supertype.to_owned(), subtype: subtype.to_owned() }
    }

    /// Reads the MIME type from what the detector printed: surrounding
    /// whitespace is dropped and the rest is split at its first `/`.
    pub fn from_output(out: &str) -> (r: Result<MimeType, Error>)
        ensures
            match r {
                Ok(m) => mime_of_output(out@) == Some(m@),
                Err(e) => mime_of_output(out@) is None && e@ == ErrorView::DetectionFailed(out@),
            },
    {
        let t = trim_text(out);
        let v = chars_of(t);
        let k = find_char(&v, '/');
        if k < v.len() {
            let sup = t.substring_char(0, k);
            let sub = t.substring_char(k + 1, v.len());
            proof {
                assert(sup@ =~= t@.take(k as int));
                assert(sub@ =~= t@.skip(k + 1));
            }
            Ok(MimeType::new(sup, sub))
        } else {
            Err(Error::DetectionFailed(out.to_owned()))
        }
    }

    /// The part before the `/`, as detected.
    pub fn supertype(&self) -> (r: &str)
        ensures
            r@ == self@.supertype,
    {
        self.supertype.as_str()
    }

    /// The part after the `/`, as detected.
    pub fn subtype(&self) -> (r: &str)
        ensures
            r@ == self@.subtype,
    {
        self.subtype.as_str()
    }

    /// The type written out as `supertype/subtype`.
    pub fn to_string(&self) -> (r: String)
        ensures
            r@ == self@.supertype + seq!['/'] + self@.subtype,
    {
        let mut r = self.supertype.clone();
        r.append("/");
        proof {
            reveal_strlit("/");
        }
        r.append(self.subtype.as_str());
        r
    }
}

} // verus!
