# uvr

The logic of `uvr`, a package manager for R, as a verified library.

- `src/` is the library. Each function says in its contract what it returns or
  changes, and Verus proves it. Laws that relate several functions are the public
  proof functions whose names begin with `law_`.
  - `strings`, `text`, `strmap`: texts as sequences of characters, operations on
    them, and a sorted map with string keys.
  - `dcf`, `manifest`, `resolver`, `lockfile`: control files, `uvr.toml`, versions.
  - `registry`: Bioconductor, CRAN's index format, GitLab, Forgejo, GitHub and the
    catalog of Posit's platforms.
  - `r_env`, `r_version`, `commands`: the environment that R runs in, the versions of
    R on a machine, and what the commands compute.
  - `installer`: tar streams whose link headers have to be fixed.
  - `error`, `http`, `url`, `os_release`, `package_name`, `subdirectory`.
- `app/` is the program around it: files, network, environment variables, the command
  line. Where asking and deciding alternate, the library tells what to do next and is
  told what came of it.
- `tests/` runs the library, with the outside crates that it calls.

Calls into other crates (`toml`, `semver`, `urlencoding`, `flate2`) and into parts of
the standard library stand in `src/` behind small functions whose contracts are
believed, not proved. Their doc comments say what is claimed.
