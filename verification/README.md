# jito_client

A client for the Jito block engine, in two parts.

- `src/` is the verified library. It holds the logic of the client:
  - `balancer`: the rate-limited choice among a client's entries, over the
    time-based balancer of `load_balancer`;
  - `builder`: the client settings and the entries a client load-balances over
    (one per URL and local address, or one per address in broadcast mode);
  - `headers`: extraction of the headers that a target URL encodes after the
    first separator past its scheme, with HTTP header validation and one
    value per name;
  - `requests`: the POST request that each target URL and endpoint give;
  - `rpc`: the JSON-RPC calls, the status check of responses, failure messages
    and the bundle id header;
  - `encoding`: base64 encoding of serialized transactions, with the
    packet-size check;
  - `ip`: selection of usable local addresses;
  - `text`: character-level helpers.
  Each module states its laws as public proof functions.
- `app/` is the networked layer: HTTP clients, waiting for a free entry,
  async sends, and the Jito HTTP APIs. It calls the library for every decision.
- `tests/` exercises the library on concrete values.

The address lists of `app/` are the library's `IpAddress` values, so that
they go straight to the builder: `.ip(get_ipv4_list()?)`.
