# Mystic Update

A software updater for Linux distributions. It finds the package managers that are installed, checks
each of them for updates, shows the updates, and installs the chosen ones.

- `src/` is the library: what the output of the managers says, which commands run in which order, the
  protocols of the privileged helper and the privileged shell, how far runs have come, and how the
  window answers to events. Every function has a contract that Verus proves; `src/laws.rs`, and the
  proof functions named `law_..` in the other modules, state what holds of the updater as a whole.
- `app/` runs what the library asks for: processes, PackageKit, Flatpak's library, and the window.
- `tests/` runs the library on concrete values.

Percentages with a fraction are held in the library as the bits of the 32-bit float that shows them.
