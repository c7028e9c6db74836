//! What holds of the models: each has every part of what it is the model of.
use crate::types;
use crate::types::{
    AurPackage, AurSrcinfo, DevelSource, DevelUpdate, Error, ErrorView, Package, PackageUrl,
    Update,
};
use vstd::prelude::*;

verus! {

/// The model of an update has its fields.
pub proof fn law_update_is_modelled_whole(update: Update)
    ensures
        update.deep_view().pkgname == update.pkgname@,
        update.deep_view().pkgver_cur == update.pkgver_cur@,
        update.deep_view().pkgrel_cur == update.pkgrel_cur@,
        update.deep_view().pkgver_new == update.pkgver_new@,
        update.deep_view().pkgrel_new == update.pkgrel_new@,
{
}

/// The model of a devel update has its fields.
pub proof fn law_devel_update_is_modelled_whole(update: DevelUpdate)
    ensures
        update.deep_view().pkgname == update.pkgname@,
        update.deep_view().pkgver_cur == update.pkgver_cur@,
        update.deep_view().pkgrel_cur == update.pkgrel_cur@,
        update.deep_view().ref_id_new == update.ref_id_new@,
{
}

/// The model of a package has its fields.
pub proof fn law_package_is_modelled_whole(package: Package)
    ensures
        package.deep_view().pkgname == package.pkgname@,
        package.deep_view().pkgver == package.pkgver@,
        package.deep_view().pkgrel == package.pkgrel@,
{
}

/// The model of a URL has its fields.
pub proof fn law_url_is_modelled_whole(url: PackageUrl)
    ensures
        url.deep_view().remote == url.remote@,
        url.deep_view().protocol == url.protocol@,
        match url.branch {
            Some(branch) => url.deep_view().branch == Some(branch@),
            None => url.deep_view().branch is None,
        },
{
}

/// The model of a reply of the AUR has its fields.
pub proof fn law_reply_is_modelled_whole(reply: AurPackage)
    ensures
        reply.deep_view().name == reply.name@,
        reply.deep_view().version == reply.version@,
{
}

/// The model of a .SRCINFO has its fields, and every source field of every architecture.
pub proof fn law_srcinfo_is_modelled_whole(srcinfo: AurSrcinfo, arch: int, field: int)
    ensures
        srcinfo.deep_view().pkgname == srcinfo.pkgname@,
        srcinfo.deep_view().base == srcinfo.base.deep_view(),
        srcinfo.base.deep_view().pkgver == srcinfo.base.pkgver@,
        srcinfo.base.deep_view().pkgrel == srcinfo.base.pkgrel@,
        srcinfo.base.deep_view().source.len() == srcinfo.base.source@.len(),
        0 <= arch < srcinfo.base.source@.len() ==> srcinfo.base.deep_view().source[arch].len()
            == srcinfo.base.source@[arch]@.len(),
        0 <= arch < srcinfo.base.source@.len() && 0 <= field < srcinfo.base.source@[arch]@.len()
            ==> srcinfo.base.deep_view().source[arch][field]
            == srcinfo.base.source@[arch]@[field]@,
{
}

/// The model of a repository to ask has its fields.
pub proof fn law_source_is_modelled_whole(source: DevelSource)
    ensures
        source.deep_view().pkgname == source.pkgname@,
        source.deep_view().pkgver_cur == source.pkgver_cur@,
        source.deep_view().pkgrel_cur == source.pkgrel_cur@,
        source.deep_view().remote == source.remote@,
        match source.branch {
            Some(branch) => source.deep_view().branch == Some(branch@),
            None => source.deep_view().branch is None,
        },
{
}

/// The model of an error is of the same variant, and has what the error gives.
pub proof fn law_error_is_modelled_whole(error: Error)
    ensures
        match error {
            Error::Stdout(e) => error.deep_view() == ErrorView::Stdout(e),
            Error::GetIgnoredPackagesFailed => error.deep_view()
                == ErrorView::GetIgnoredPackagesFailed,
            Error::HeadIdentifierTooShort => error.deep_view()
                == ErrorView::HeadIdentifierTooShort,
            Error::ParseErrorSrcinfo(e) => error.deep_view() == ErrorView::ParseErrorSrcinfo(e),
            Error::ParseErrorCheckUpdates(s) => error.deep_view()
                == ErrorView::ParseErrorCheckUpdates(s@),
            Error::ParseErrorPacman(s) => error.deep_view() == ErrorView::ParseErrorPacman(s@),
            Error::ParseErrorPkgverPkgrel(s) => error.deep_view()
                == ErrorView::ParseErrorPkgverPkgrel(s@),
        },
{
}

/// The model of a result is a value exactly if the result is, and has the value or the error.
pub proof fn law_outcome_is_modelled_whole<T: DeepView>(value: T, error: Error)
    ensures
        types::outcome(Ok::<T, Error>(value)) == Ok::<T::V, ErrorView>(value.deep_view()),
        types::outcome(Err::<T, Error>(error)) == Err::<T::V, ErrorView>(error.deep_view()),
{
}

} // verus!
