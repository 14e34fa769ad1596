# aemm

The verified core of a desktop mod manager for the EFMI loader of Arknights:
Endfield. The library (`src/`) holds the manager's rules with Verus
contracts: safe relative paths and folder names, archive and staging checks,
mod-root detection, author metadata, BLAKE3 content hashing, repository
scanning and synchronization, the INI and deployment-path conflict analyzers, the two
deployment strategies' naming and record checks, profile reordering and
switching, settings validation, install planning and the commit of a
prepared install, repository takeover and preview-image checks.

`app/` reads the disk, parses configuration files and archive listings,
runs the steps of an install commit that the library names, walks mod
folders and streams file content into the library's hasher, and hands plain
values to the library.
