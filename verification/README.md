# openhicos

A PKCS#11 module and Rust API for Taiwanese GPKI / HiCOS smart cards, with
its logic verified by Verus.

- `src/` — the verified library: DER decoding, PKCS#15 token reading,
  APDU dialogues for the first- and second-generation cards (including the
  SCP03 secure channel and the HiCOS v3 protected PIN), PKCS#1 v1.5 and OAEP
  padding, RSA public-key operations, the Cryptoki state machine, and the
  high-level sign / decrypt API. Card dialogues are written as functions of
  the replies received so far (`apdu::Flow`): they ask for the next command
  or report their outcome.
- `app/` — what Verus does not see: PC/SC transport, the loop that runs the
  dialogues over it, the Cryptoki C ABI (`C_GetFunctionList`) with its
  global state, and the top-level API calls that open a token.
- `tests/` — scenario tests, including recorded card traces.
