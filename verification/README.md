# biscuit_poc

Authorization tokens made of blocks of Datalog facts and rules. A token starts as an authority
block; each further block can only restrict what the token is good for. The library is verified
with Verus.

| module        | what it holds                                                                  |
|---------------|--------------------------------------------------------------------------------|
| `terms`       | identifiers, predicates, facts, rules, and their models                        |
| `symbols`     | symbol tables and the default strings                                          |
| `world`       | worlds of facts and rules, and the functions of a Datalog engine               |
| `block`       | blocks, and the check of one block                                             |
| `token`       | tokens: making, reading, appending, sealing                                    |
| `check`       | the check of a whole token                                                     |
| `print`       | tokens as text                                                                 |
| `text`        | decimal numbers, joined texts, quoted lists                                    |
| `laws`        | what holds across operations: appending restricts, a pass has its reasons, ... |
| `block_laws`  | what holds of the check of one block                                           |
| `round_trips` | what holds over several calls: built, written, sealed, read back, checked      |
| `growth`      | what holds of checks when more facts and rules are known                       |

Signing, encoding and Datalog evaluation are functions that the caller hands in. The contracts say
what these functions are asked, and what a result is for whatever they answer. `app/` hands in CBOR
encoding and the `datalog_with_constraints` engine.
