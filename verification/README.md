# solx

A Solana wallet for the terminal: keys, accounts, transactions and an encrypted vault.

- `src/` is the library: everything that is decided or computed, with contracts that Verus proves.
  - `vault`, `codec`, `session`, `secret`, `mnemonic`, `signer`: wallets, the plain bytes of a
    vault, its sealed file, and the keys in it.
  - `amount`, `args`, `config`, `name`, `text`: what is read from the user.
  - `json`, `rpc`: requests to a node, and what is read from the answers.
  - `instruction`, `transaction`, `transfer`, `select`, `close`, `send`: what is sent, and the
    steps on the way.
  - `history`, `edit_line`, `editor`, `shell`, `wallet`: the shell and its commands.
  - `error`: what can go wrong, in words.
- `app/` is the program for Unix systems: arguments, the environment, files, the terminal and the
  network. It does what the library asks for and hands back what came of it.
- `tests/` runs the library with the crates that it calls.

The trusted items are the functions that call another crate or an item of the standard library
without a specification. Each names what it calls and what is believed of it. Public proof functions
state what holds across several operations, for example that a saved vault reads back the same, that
no derivation index is used twice, that nothing is sent without
agreement, or that only a confirmed transfer makes a recipient known.
