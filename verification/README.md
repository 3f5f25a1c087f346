# Buildkit

Build OCI images from Dockerfiles, with a pluggable execution backend. The rules of a
build are written in Verus: executable Rust whose behaviour is stated in contracts and
proved.

## Layout

- `src/` is the library. Every function in it is verified. It reads no file and opens
  no connection: it takes what was found and returns the steps to carry out.
- `app/` drives it: it reads and writes files, talks to registries, runs commands
  through a `Backend`, and keeps the copies of library types that are serialized.
- `tests/` runs the library on concrete values, with the outside crates linked and a
  filesystem in memory.

## How a build runs

`solve::Solve` is a state machine. It returns a `Task` (open a stage, fetch a base
image, ask the layer cache, copy a root filesystem, do the work of an instruction, save
a layer, export), the driver performs it, and hands back the outcome. Filesystem work
is planned as lists of `fs::Step`s. The work of a `COPY` or `ADD` (`transfer::Transfer`),
putting a cached tree together (`merge::MergeRun`), unpacking an image
(`materialize::MaterializeRun`), resolving deferred links (`unpack::LinkRun`) and writing
tags (`export::ExportRun`) work in the same way.

## What is proved beside the contracts

Laws that relate several functions are public proof functions, next to what they speak
of. Among them:

- a changeset of the layer cache leads from the parent's tree to the tree that was
  saved, also where a name becomes something of another kind (`changeset`);
- what the image store writes is what it reads (`store`, `pull`); exporting the same
  layer again does not write the layer again, and the config of every export is stored
  (`export`);
- what is exported behind a step that was carried out is packed from the root filesystem
  of that build (`export`, `solve`);
- layer entries change nothing outside the root filesystem, but for whiteouts of a name
  that leads upwards itself and, on a Posix host, paths that lead upwards between
  backslashes (`unpack`), and absolute links are rewritten to lead to a
  place in it (`rootfs`);
- what `.dockerignore` leaves out of the build context is not copied (`context`);
- files that were packed come back when the layer is unpacked (`packing`), so that the
  layer which a build without the cache stores unpacks to what it has made (`solve`);
- a cached root filesystem that is shared is never changed (`solve`);
- chain ids and variables do not depend on what the cache had (`executor`), and no
  instruction but `ENV` changes a build argument of the request (`stage`).

## What is trusted

Calls into `tar`, `flate2`, `sha2`, `base64`, `serde_json` and `oci-distribution`, and a
few functions of `std`, stand behind small wrappers whose contracts are stated and not
proved. Each has a doc comment that says what is claimed of the call.
