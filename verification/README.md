# x402_adn

Payments with agent debit notes: pre-funded private notes that an agent debits by signature.

- The agent signs a debit of its note for a merchant (`client`).
- The facilitator checks the signature, acknowledges the debit under its own key (`adn`, `key`), and settles it (`submitter`). What it takes in as an account or as a key is looked over first (`decoder`, `lattice`).

`src/` is the library. Every function in it is verified with Verus; calls into miden-protocol, hex, base64, rand_chacha and the system clock stand behind small wrappers whose contracts say what is relied on. Functions named `law_..` state what holds of the library as a whole.

`tests/` runs the library with those crates linked. `app/` is the facilitator server around it: HTTP, files, environment, and the client of the chain in `app/chain.rs`, which needs miden-client, miden-client-sqlite-store and guardian-shared.

Some functions come twice. `pay` and `begin` ask for what the outside decoders need in order to come to a result; `try_pay` and `try_begin` ask for nothing, test it, and return nothing where it does not hold.

Signing goes through floating point, so which signature comes out is left open. The functions that sign say what holds of whichever came; `complete_debit`, `signature_hex` and `acknowledge` take the signature as an argument and say exactly what follows from it.
