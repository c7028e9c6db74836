//! The calls into std and other crates whose behaviour is taken on trust.
use crate::release;
use crate::text;
use crate::types::{SrcinfoBase, SrcinfoBaseView, VersionOrder};
use srcinfo::Error as SrcinfoError;
use srcinfo::Srcinfo;
use std::str::FromStr;
use version_compare::Cmp;
use vstd::prelude::*;
use vstd::utf8::*;

verus! {

/// The error of `std::str::from_utf8`, carried through as it is.
#[verifier::external_type_specification]
#[verifier::external_body]
pub struct ExUtf8Error(std::str::Utf8Error);

/// The error of `srcinfo`, carried through as it is.
#[verifier::external_type_specification]
#[verifier::external_body]
pub struct ExSrcinfoError(SrcinfoError);

/// The error with which `std::str::from_utf8` answers bytes that are not UTF-8.
pub uninterp spec fn utf8_failure(bytes: Seq<u8>) -> std::str::Utf8Error;

/// `std::str::from_utf8`: the text that the bytes encode, where they are UTF-8, and an error
/// where they are not.
#[verifier::external_body]
pub(crate) fn decode(bytes: &[u8]) -> (res: Result<&str, std::str::Utf8Error>)
    ensures
        match res {
            Ok(text) => valid_utf8(bytes@) && text@ == decode_utf8(bytes@),
            Err(e) => !valid_utf8(bytes@) && e == utf8_failure(bytes@),
        },
{
    std::str::from_utf8(bytes)
}

/// The lowercase equivalent of a text, as `str::to_lowercase` gives it.
pub uninterp spec fn lowercase_of(text: Seq<char>) -> Seq<char>;

/// The lowercase equivalent of an ASCII character.
pub open spec fn ascii_lowercase(c: char) -> char {
    if 'A' <= c && c <= 'Z' {
        (c as u32 + 32) as char
    } else {
        c
    }
}

/// The lowercase equivalent of a text that is all ASCII.
pub open spec fn ascii_lowercase_of(text: Seq<char>) -> Seq<char> {
    text.map_values(|c: char| ascii_lowercase(c))
}

/// `str::to_lowercase`: the lowercase equivalent of the text. Of a text that is all ASCII, each
/// of the letters from `A` to `Z` becomes the small letter, and the rest stays.
#[verifier::external_body]
pub(crate) fn lowercase(text: &str) -> (res: String)
    ensures
        res@ == lowercase_of(text@),
        is_ascii_chars(text@) ==> res@ == ascii_lowercase_of(text@),
{
    text.to_lowercase()
}

/// How `version_compare::compare` orders two versions, if it can read both.
pub uninterp spec fn version_order_of(a: Seq<char>, b: Seq<char>) -> Option<VersionOrder>;

/// Whether what stands before the first dot of a text is a number, of few enough digits for an
/// `i32`.
pub open spec fn begins_with_number(text: Seq<char>) -> bool {
    let first = text::before(text, "."@);
    release::is_number(first) && first.len() <= 9
}

/// `version_compare::compare`: how version `a` compares with version `b`, or nothing where
/// either is no version. It answers with less, equal or greater alone. A version compares as the
/// same with itself. A text that begins with a number is a version.
#[verifier::external_body]
pub(crate) fn version_order(a: &str, b: &str) -> (res: Option<VersionOrder>)
    ensures
        res == version_order_of(a@, b@),
        a@ == b@ && res is Some ==> res == Some(VersionOrder::Same),
        begins_with_number(a@) && begins_with_number(b@) ==> res is Some,
{
    match version_compare::compare(a, b) {
        Ok(Cmp::Lt) => Some(VersionOrder::Older),
        Ok(Cmp::Eq) => Some(VersionOrder::Same),
        Ok(Cmp::Gt) => Some(VersionOrder::Newer),
        Ok(Cmp::Ne) => None,
        Ok(Cmp::Le) => None,
        Ok(Cmp::Ge) => None,
        Err(()) => None,
    }
}

/// The fields that `srcinfo` reads in a .SRCINFO, or its error.
pub uninterp spec fn srcinfo_of(raw: Seq<char>) -> Result<SrcinfoBaseView, SrcinfoError>;

/// `Srcinfo::from_str`: the pkgver, the pkgrel and the sources, by architecture, of the pkgbase
/// section of a .SRCINFO.
#[verifier::external_body]
pub(crate) fn read_srcinfo(raw: &str) -> (res: Result<SrcinfoBase, SrcinfoError>)
    ensures
        match res {
            Ok(base) => srcinfo_of(raw@) == Ok::<SrcinfoBaseView, SrcinfoError>(base.deep_view()),
            Err(e) => srcinfo_of(raw@) == Err::<SrcinfoBaseView, SrcinfoError>(e),
        },
{
    let base = Srcinfo::from_str(raw)?.base;
    Ok(
        SrcinfoBase {
            pkgver: base.pkgver,
            pkgrel: base.pkgrel,
            source: base.source.into_iter().map(|arch| arch.vec).collect(),
        },
    )
}

} // verus!
