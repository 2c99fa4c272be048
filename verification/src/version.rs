//! An exact package version, kept as the text it was written with.
//!
//! This core never interprets version syntax: ordering and range
//! satisfaction are the business of the external constraint solver. All the
//! reconciliation logic ever does with a version is compare it for equality
//! and write it back out, so the text itself, restricted to the characters
//! the record format can carry, is the whole value.

use vstd::prelude::*;

use crate::text::valid_value;
use crate::text::check_value;

verus! {

/// An exact version, e.g. `1.0.0`.
pub struct Version {
    text: String,
}

impl View for Version {
    type V = Seq<char>;

    closed spec fn view(&self) -> Seq<char> {
        self.text@
    }
}

impl Version {
    /// Well-formed: non-empty text made of value characters.
    pub open spec fn wf(self) -> bool {
        self@.len() > 0 && valid_value(self@)
    }

    /// Accepts `s` as a version if it is non-empty and holds only value
    /// characters; returns nothing otherwise.
    pub fn parse(s: &str) -> (r: Option<Version>)
        ensures
            r is Some <==> (s@.len() > 0 && valid_value(s@)),
            r matches Some(v) ==> v@ == s@ && v.wf(),
    {
        if s.unicode_len() == 0 {
            return None;
        }
        if check_value(s) {
            Some(Version { text: s.to_owned() })
        } else {
            None
        }
    }

    /// The version text.
    pub fn as_str(&self) -> (r: &str)
        ensures
            r@ == self@,
    {
        self.text.as_str()
    }

    /// A fresh copy of the version text.
    pub fn text(&self) -> (r: String)
        ensures
            r@ == self@,
    {
        self.text.clone()
    }

    /// An owned duplicate of the version.
    pub fn duplicate(&self) -> (r: Version)
        ensures
            r@ == self@,
            r.wf() == self.wf(),
    {
        Version { text: self.text.clone() }
    }

    /// Equality on the version text.
    pub fn same(&self, other: &Version) -> (r: bool)
        ensures
            r == (self@ == other@),
    {
        self.text == other.text
    }
}

} // verus!
