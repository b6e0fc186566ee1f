# ckb_default_impls

The decisions of a wallet for a CKB chain, written and proved in Verus.

* `cell_dep`: where the scripts of a chain are found, from its genesis block and from what was
  registered.
* `collector`, `chain_check`, `offchain`, `gather`: which live cells to collect, from the cells known
  locally and from the pages of an indexer that follows the node. `collect_run` and
  `collect_steps` hold what is true of a whole collection.
* `tx_dep`, `cache`: transactions, cells and headers, asked for once and kept in caches of limited
  size.
* `header_dep`: the header of a transaction's block.
* `signer`, `secp`: signatures with keys held in memory.
* `types`, `views`, `table`, `bytes`: the values that the others speak of.

The library makes no request. A function that needs an answer says what to ask for and is called
again with the answer; `app/` runs those loops, sleeps, locks and converts.

Not proved, but stated in contracts beside the calls: what `ckb_hash`, `ckb_types`,
`ckb_jsonrpc_types`, `lru` and `secp256k1` return, and how std writes numbers and quoted text.
