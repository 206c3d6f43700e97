# PIVSS

A P2P incentivized versioned storage service for Lightning and RGB wallet backups.
A server keeps every version of a backup, seeds it over BitTorrent, advertises itself
on nostr with a price and a BOLT12 offer, and is paid only while it can prove that it
still holds the bytes.

The core is verified with [Verus](https://github.com/verus-lang/verus): what each
function returns or changes is stated beside it and proved.

| directory | what it holds |
|---|---|
| `src/` | the verified library |
| `tests/` | its tests |
| `app/` | the server and the client around it: HTTP, files, relays, processes, the wallet |

The library, by module:

| module | what it is about |
|---|---|
| `crypto` | the optional encryption envelope (AES-256-GCM under an Argon2id key) |
| `storage_proof` | challenges, proofs of storage and their check |
| `torrent` | single-file v1 torrents and magnet links |
| `nostr`, `announce`, `discover` | signed events, announcing a service, finding providers |
| `manifest`, `json` | the records of the service, prices, and their JSON |
| `proto`, `store` | the VSS messages; the versioned store in memory and on a VSS server |
| `seeder`, `server`, `config`, `ln` | seeding, start-up decisions, settings, the wallet |
| `state`, `api` | uploads, restores, challenges, payments, and what the API answers |
| `history` | what holds over several requests: series of uploads, lists of backups and payments |
| `client` | the ledger of a client, and its decision to pay |
| `outside` | the calls into other crates, with the contracts that are relied on |
| `text`, `order` | text and stable orders |

A store other than the one in memory can fail, and others can write to it. So every
operation of the service is stated twice: whatever the store answers, and for a store
that answers for what it holds.

`app/` serves its two web pages from `web/panel.html` and `web/app.html` below the
directory that it is started in, and needs `breez-sdk-liquid` for real payments.
