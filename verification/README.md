# prop_amm_strategy

A market maker strategy on the constant-product curve, written and verified in Verus.

The pool quotes swaps between X and Y. Its fee starts from a base fee and rises with the pool's
imbalance and with bursts of trades; the state of the burst detector lives in the first sixteen
bytes of the pool's storage.

- `src/` is the library. `program` answers encoded instructions, `swap` quotes a request, `burst`
  updates the detector, `fee` sets the fee. `curve` and `laws` prove what holds of every quote:
  more input never buys less, returns diminish up to rounding, the product of the reserves never
  shrinks, no trade empties a reserve.
- `app/` is the Solana program around it: it passes the library's responses to the host.
- `tests/` runs the library on concrete values.

Requests are decoded by `wincode`; the contract of that one call is assumed, everything else is
proved.
