# ble_gateway

The verified core of a BLE tag presence gateway. A scanner remembers the
tags it hears and reports them over a serial link; a gateway cuts the link's
byte stream into reports, keeps its last GNSS fix, publishes status updates
at most every ten seconds and serves the last one; a backend lists what the
updates report.

- `src/` is the library, verified with Verus:
  - `tag_store`, `tag_map`: the scanner's memory of tags (a `heapless` index map).
  - `address_tracker`, `address_map`: the memory of device addresses.
  - `advert`: the complete local name of an advertisement (`trouble-host` decodes it).
  - `packet`: cutting the serial stream into packets at zero bytes.
  - `gnss`: position fixes from GNSS readings, and the status lights.
  - `gateway`: the gateway's state, its updates and its status resource.
  - `report`: the backend's listing of tags and addresses.
  - `entries`: the sequence model of the index maps, with its lemmas.
- `app/` holds the host glue: wire formats (postcard, JSON, CBOR), the
  advertising event handlers, the serial and GNSS glue, the CoAP status
  resource and the backend server.
- `tests/` runs the library on concrete values.
