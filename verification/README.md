# stylus-proc

Two procedural macros for Stylus contracts, with the logic verified by Verus.

- `#[storage]` places the fields of a struct in the storage slots of a contract.
  It gives the struct back, behind it the code that counts the slots of the
  fields and makes their accessors, and implementations of `Borrow` and
  `BorrowMut` for the fields that are marked `#[borrow]`.
- `#[derive(SolidityError)]` converts the errors of a contract from the types of
  the variants of an enum, and to the bytes that a call gives back.

## Layout

- `src/tokens.rs`: what a token stream holds, and how code is written into one
- `src/text.rs`: comparisons and searches in text
- `src/syntax.rs`: what is read from struct and enum items
- `src/attrs.rs`: attributes that belong to the macros
- `src/diagnostics.rs`: what a macro gives back
- `src/storage.rs`: the `#[storage]` macro
- `src/solidity_error.rs`: the `#[derive(SolidityError)]` macro
- `src/steps.rs`: the statements of the generated layout code, how they are
  written, and what they do when they run
- `src/layout.rs`: where those statements put the fields of a struct
- `src/laws.rs`, `src/balance.rs`: what holds of the macros as a whole
- `app/`: the entry points that the compiler calls

Tokens are built and printed by `proc_macro2` and `quote`, and items are parsed
by `syn`. What the library relies on there is stated at each wrapper.
