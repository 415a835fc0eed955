# sign-tx

Signs Solana transfer transactions with a key behind a PKCS#11 module, on
Ed25519 or NIST P-256. Two modes: a single signature, and a latency benchmark
that measures each signing step separately and draws a chart of the result.

The library under `src/` holds all that decides and computes, verified with
Verus. The program under `app/` loads the module, talks to it, reads the clock
and writes files.

| module      | what it holds                                                      |
|-------------|--------------------------------------------------------------------|
| `solana`    | transfer messages, wire transactions, base58 addresses             |
| `payload`   | the benchmark's messages: distinct, all of one length              |
| `random`    | labels of generated keys, salt of payloads                         |
| `pkcs11`    | curves, return values, templates, encodings of public keys         |
| `signer`    | reading public keys, verifying signatures, cleanup                 |
| `setup`     | from a configuration to a signer, one module call at a time        |
| `run`       | iterations and the course of a benchmark                           |
| `stats`     | samples, percentiles, mean and deviation                           |
| `spread`    | the standard deviation, exactly, and how it is rounded             |
| `report`    | what a benchmark prints                                            |
| `single`    | what a single signature prints, as text or JSON                    |
| `export`    | raw samples as CSV or JSON                                         |
| `chart`     | the SVG chart, with `histogram`, `timeline` and `svg`              |
| `decimal`   | exact fractions, printed as the nearest float would be             |
| `text`      | numbers and padding                                                |
| `wide`      | 256-bit arithmetic                                                 |

Durations, shares and positions are exact fractions; none is a float. Calls
into other crates stand behind small functions marked
`#[verifier::external_body]`, each with a comment that says what is taken on
trust.
