# frame_contrib

Verified core logic of a collection of FRAME pallets and traits, written in Verus.

- `referenda_tracks`, `split_id`, `sorted_ids`: tracks of referenda grouped by origin, with
  group and sub-track ids packed in one integer, and the migration of flat tracks to groups.
- `pitch`: claims on map cells, with joins, disclosures and expiry.
- `pass`: pass accounts with attested devices, call filters, session keys, deposits, and the
  transaction extensions that authenticate them.
- `payments`: payments held in escrow, released, refunded, cancelled or resolved after a
  dispute, with the notifications the runtime passes on to its status hooks. The assets are
  the library's own model, a ledger of free and held balances with a minimum balance per
  asset that keep-alive transfers (the fees, and the amount moved to the beneficiary's hold)
  leave their payer; account reaping, dust and the receiver's minimum are not modelled, and
  the scheduler is a map from a payment to the block and the signing account of the `cancel`
  it dispatches. The contracts hold of this model.
- `composite_names`: the names a composite authenticator gives its parts, and the checks on
  the name it is given.
- `authn`, `gas_tank`, `listings`, `memberships`, `nonfungibles_helpers`, `proof_verifier`:
  the traits these pallets build on, with their generic implementations.
- `weight`, `weights`, `dispatch`, `scale`: weights, errors, and the SCALE encoding and hashing
  the logic relies on.

`app/` holds the glue that encodes runtime values before the library reads them.
