# sqnr — the sQUIC signer

sqnr signs admin **transactions** against an HTTP/3 server. Authority is an
**Ed25519 signature on the transaction** — never the connection's transport key —
and the signing key lives in one of two interchangeable backends: a **YubiKey**
(OpenPGP Authentication key) or a **software identity** in `~/.sqnr`, sealed with
a passphrase or, for unattended automation, in plaintext.

The library is written in Verus. Its functions state what they return or change,
and all but the small ones under "What is trusted" are proved to do so.

## Layout

- `src/` — the library, without files, network, card or terminal:
  - `key`, `tx`, `protocol` — keys, signed transactions, signed commands;
  - `identity`, `signer`, `card` — where the signing key lives;
  - `flow`, `client`, `config`, `cli` — what is asked of the network, the
    terminal and the configuration;
  - `wire`, `encoding`, `text`, `error`, `crypto` — what these are built from.
- `app/` — the program around it: files, HTTP/3, PC/SC, prompts.
- `tests/` — scenarios, run against the real cryptography.

## What is proved

- Decoding a signed transaction or command gives back what was encoded, a message
  that decodes is the only encoding of what it decodes to, and everything else is
  refused with an error that says why.
- The bytes that are hashed for a signature determine the whole batch, and no
  message is signed both as a command and as a transaction.
- What carries a good signature verifies at the server it was signed for and at no
  other; what a software identity signs carries one.
- A key is read back from its base58 and from its hexadecimal text, whatever white
  space is around it, and no two keys share a base58 text.
- A generated identity file states its public key to anybody and gives the key to
  whoever has the passphrase; a file whose lines disagree does not load.
- A conversation with the card ends in an answer of the kind that was asked for;
  a key is generated only after the admin PIN was verified and the slot set.
- Every request to the card gets one answer, in order; the card is opened for the
  first and for each that follows a lost connection.

## What is trusted

The cryptography and the text encodings come from crates of their own, called
through small functions whose contracts are stated, not proved; the two that draw
random bytes promise nothing of them. They stand in `crypto` and `encoding`, with
UTF-8 in `wire` and JSON in `flow`.

## Usage

```
sqnr keygen                # create ~/.sqnr/identity, encrypted (prompts for a passphrase)
sqnr keygen --plaintext    # unencrypted key for automation (no prompt)
sqnr pubkey                # print the public key to add to a server's admin list
sqnr --yubikey pubkey      # the YubiKey's Authentication-key public key
sqnr --yubikey provision   # generate an Authentication key on the YubiKey
```
