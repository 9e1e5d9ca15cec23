# static_key

Static keys whose readers are patched into the code: each `static_match!`
call site is a single instruction that either falls through into the likely
arm or jumps to another arm's label, and setting the key rewrites every call
site while other cores may be executing it.

`src/` is the verified library:

- `arch`: the nop and jump encodings for x86-64 and RISC-V, with the proof
  that an installed patch jumps to the selected arm's label.
- `text`: a byte-level model of text and of the steps that change it.
- `patch`: the text guard, the store plans that replace an instruction
  (whole-or-parked at every step, each store atomic), and the pages to
  unprotect before patching.
- `static_match`: static keys and call sites, with the invariant that every
  call site holds the code for the arm its matcher selects for the key's
  value.
- `arms`: the layout of a `static_match!` into a fallthrough arm and a jump
  table.

`app/` holds what runs around it: the text lock, `membarrier` and `mprotect`,
the atomic stores on real memory, the statically laid-out keys and call
sites, and the `static_match!` expansion with `syn` and `quote`.
