# arch_updates_rs

Deciding which packages of an Arch Linux system have updates due.

- `pacman` lists the updates of pacman-managed packages and the AUR packages on the system.
- `aur` compares the AUR packages with the versions in the AUR.
- `release` orders pkgrels.
- `devel` compares the packages that are built from a git repository with its head.
- `parse` reads single lines and source fields; `text` holds the searches that it is made of.
- `parse_laws`, `release_laws`, `aur_laws` and `devel_laws` state and prove what holds of these as
  a whole, with the lemmas on sequences in `seqs`.
- `outside` holds the calls into std, `srcinfo` and `version-compare`, whose behaviour is taken on
  trust.

Everything in `src/` is verified with Verus. It works on plain values: the bytes that a command
printed, the replies of the AUR. `app/` runs the commands, asks the AUR, and hands over what they
say.
