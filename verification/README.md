# cluster_monitor

A small cluster monitor. Every watched machine runs a worker that reports its
load to a head once a second, as one JSON line; the head keeps the list of
reporting nodes and draws their CPU and memory history in the terminal.

- `src/` is the verified library (Verus):
  - `handle_data`: the head's node list (register, store a report, drop a node)
    and the laws that tie these operations together;
  - `head`: the per-connection session that turns connection events into node
    list updates, and the blank-line test;
  - `display`: the load-history windows of the terminal view, node selection by
    arrow keys, glyphs, colours and the core tree;
  - `get_data::processes`: the process table order, tick accounting, byte units;
  - `worker`: sensor file names and labels, report framing, the reconnect rule;
  - `message`: the report itself, with float readings held by their bit patterns.
- `app/` is the program around it: arguments, sockets, `/proc` and `/sys`
  reads, JSON, the terminal, and the float formulas.
- `tests/` exercises the library on concrete values.
