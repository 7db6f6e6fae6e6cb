# nipart

Declarative network state: a desired state, the current state of the host and
the saved state are merged into what is applied, what is verified afterwards,
what is persisted and what undoes the apply. The library is verified with Verus.

- `src/` holds the library. Every type has a mathematical view, every function a
  contract over these views, and the `law_` proof functions state what holds of
  several functions together.
  - values: `value`, `keymap`, `order`, `text`, `addr`, `error`
  - state: `iface`, `ifaces`, `ip`, `route`, `route_rule`, `dns`, `wait_online`,
    `net_state`
  - merging: `merged_iface`, `merged_ifaces`, `merge_ifaces`, `post_merge`,
    `up_priority`, `alt_names`, `wifi`, `merged_route`, `merged_route_rule`,
    `merged_dns`, `merged_net_state`
  - around it: `no_daemon` (routing rules of the kernel), `plugin` (commands to
    plugins), `wifi_client` (what the WIFI client has to do)
  - laws that span modules: `addr_laws`, `merge_laws`, `saved_laws`, `wifi_laws`
- `tests/` holds scenarios.
- `app/` connects the library to the host: serialised types, the kernel, the
  plugin connection and the WIFI client.

What is believed without proof stands in `text` and `dns`: `String::push`,
`str::to_lowercase` and the debug formats of a string and of a list of strings.
