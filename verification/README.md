# hecate

A bookmark tree that several browsers share, with one hidden, encrypted vault. A native
program owns the store; a browser extension talks to it over native messaging, with one
length-prefixed JSON message for each request and each reply.

The library in `src/` is written in [Verus](https://github.com/verus-lang/verus): every
function states what it does, and the statement is proved. `app/` is the program around
it: arguments, standard input and output, the database file, the parsing of JSON.

## Layout

| modules | what they hold |
|---|---|
| `node`, `table` | a node, and the tree as a map from ids to entries |
| `text`, `error`, `json`, `page` | texts, error texts, the JSON of replies, page sizes |
| `rows`, `walk`, `like`, `reads`, `load`, `changes` | the algorithms of the store |
| `ops` | what each operation of the store means |
| `store`, `migrate` | the store, and bringing an older database up to date |
| `laws`, `order` | what every operation keeps: a sound tree, an unbroken order |
| `codec`, `kdf`, `cipher` | base64, key derivation and the cipher |
| `vault`, `vault_laws` | the vault and what holds of it |
| `nm` | native-messaging frames |
| `serve`, `cli`, `run` | requests and replies, the command line, the commands |

## What is proved

- The tree has one root, no cycles and at most 200 levels below the root, whatever
  sequence of operations is applied; the positions in a folder are 0, 1, 2, ... without a gap.
- A move puts the node where it was asked to, and changes nothing of the other nodes but
  their positions.
- A delete takes the whole subtree and nothing else.
- Pages follow one another without a gap or a repetition, always advance, and a page
  never makes a reply too large for one message, unless it is a single node that does.
- A search matches its query literally but for case, whatever wildcards are in it.
- What is sealed into the vault is what a later unlock with the same phrase shows. A
  wrong phrase, a missing vault, a damaged row and a plaintext that cannot be decoded are
  told in the same words.
- Of two writes of the vault that were made from the same row, only the first counts.
- A frame that is written is read back, however the stream is cut into pieces.

## What is trusted

The calls into `argon2`, `base64`, `chacha20poly1305`, `serde_json`, `zeroize` and a few
functions of the standard library stand behind small functions marked
`#[verifier::external_body]`. Their contracts say what is relied on.
