# loader

A plugin host and three addons, with the host's decisions and the addons'
behaviour verified with Verus.

- `src/` is the verified library: addon records (`addon`), the registry and
  the dependency-respecting load order (`resolve`), prompt commands
  (`console`), text helpers (`text`), the counter interface (`counter_api`)
  and the addons `simple_counter`, `reduce_counter` and `timer`.
- `app/` is the host program around it: the ABI-stable interface between host
  and addon libraries (built on `abi_stable`), dynamic loading, threads,
  logging and the prompt.
- `tests/` exercises the library on concrete values.
