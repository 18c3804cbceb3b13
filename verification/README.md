# flowsim

A simulator of flow programming in a virtual network, with its decision
logic verified in Verus.

- `src/` is the verified library:
  - `prefix.rs`: IPv4 prefixes, read from text through `ipnet`;
  - `table.rs`: association-list tables (insertion-ordered maps) and name lists;
  - `agent.rs`: an agent's routing state and what it does with each VMI,
    route or flow it is handed; hashing of flow keys into partitions;
  - `control.rs`: the control node, which learns routes and broadcasts them;
  - `config.rs`: the configuration node, which hands VMIs to their agents;
  - `flow.rs`: flow-table partitions, their statistics, and start-up readiness;
  - `packet.rs`: a traffic generator that picks hosts with `rand` and looks
    packets up in the partition their key hashes to.
- `app/` is the program around it: channels, threads, the async runtime,
  clocks and printing.
- `tests/` exercise the library on concrete values.
