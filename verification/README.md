# sonda

A PC hardware, OS and driver scanner that prints one JSON document (contract
v1), a short human summary (`--summary`), or updates itself from the latest
GitHub release (`sonda update`, `sonda update --check`).

## Layout

- `src/` is the verified library. Every function carries a contract that
  Verus proves:
  - `text`, `number`: the string and decimal toolkit that the parsers use,
    specified the way `str` and `u64::from_str` / `{}` formatting behave;
  - `probe/*`: one parser per system tool (`uname`, `lscpu`, `lspci`,
    `lsusb`, `lsblk`, `ip`, `rfkill`, `dmidecode`) and per file
    (`/etc/os-release`, `/proc/meminfo`, `/proc/swaps`, `/sys/class/dmi/id`),
    each with an exact specification of what it reads from the tool's text;
  - `model`, `run`: the contract's sections and their assembly;
  - `summary`: the `--summary` renderer;
  - `timefmt`: RFC3339 timestamps on the proleptic Gregorian calendar;
  - `update`: version comparison, asset selection and the update decision;
  - `shell`, `cli`: command quoting, error messages, and what `main` does with
    its arguments.
- `app/` is the program around it: clap, the `bash -c` runs, file reads, the
  scan's threads, the update's download and file replacement, and the serde
  copies of the model that print the JSON.
- `tests/` runs the library on concrete inputs.

## Laws proved in `src/`

- a version is never newer than itself, at most one of two versions is newer
  than the other, a trailing `.0` changes nothing, and plain numbers compare
  as numbers (`update`);
- every instant before the year 10000 is written `YYYY-MM-DDTHH:MM:SSZ`, a
  later instant gets a later stamp, and a day number names exactly one date
  (`timefmt`);
- bash reads a quoted value back as that value (`shell`);
- what a probe could not read is `null`, never an empty string (`run`);
- the storage section holds whole disks only; PCI categories are the six of
  the contract; platform targets are known release targets;
- the summary has one `GPU:` line per GPU, then a `WiFi:` and a `Kernel:`
  line (`summary`).
