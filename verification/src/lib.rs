//! Deciding which packages of an Arch Linux system have updates due: those of pacman, those from
//! the AUR, and those that are built from a repository.
pub mod aur;
pub mod aur_laws;
pub mod devel;
pub mod devel_laws;
pub mod outside;
pub mod pacman;
pub mod parse;
pub mod parse_laws;
pub mod release;
pub mod release_laws;
pub mod seqs;
pub mod text;
pub mod text_laws;
pub mod types;
pub mod types_laws;

pub use aur::check_aur_updates;
pub use devel::{check_devel_updates, get_aur_srcinfo, get_head_identifier};
pub use pacman::{check_updates, get_aur_packages, get_devel_packages, get_ignored_packages};
pub use parse::{parse_pacman_qm, parse_update, parse_url, parse_ver_and_rel};
pub use types::{
    AurPackage, AurSrcinfo, CheckType, DevelSource, DevelUpdate, Error, Package, PackageUrl,
    SrcinfoBase, Update, UpdateCheckOutcome, DEVEL_SUFFIXES,
};
